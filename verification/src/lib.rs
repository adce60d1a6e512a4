//! Verified logic of Magisk's module and metamodule management: configuration
//! files, module directory scans, metamodule selection and SELinux names.
pub mod text;
pub mod config;
pub mod paths;
pub mod metamodule;
pub mod modules;
pub mod sepolicy;
