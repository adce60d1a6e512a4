//! SELinux names of the daemon: the per-device random process domain and
//! file type, read back from their files, and the contexts built from them.
use crate::text::{chars_of, concat, push_char, string_of_range, trim, trim_range};
use vstd::prelude::*;
use vstd::wrapping::u128_specs;

verus! {

/// The process domain used when no randomised one has been saved.
pub const SEPOL_PROC_DOMAIN: &'static str = "magisk";

/// The file type used when no randomised one has been saved.
pub const SEPOL_FILE_TYPE: &'static str = "magisk_file";

/// The file type of the log pipe that only root and zygote can open.
pub const SEPOL_LOG_TYPE: &'static str = "magisk_log_file";

/// The file that holds the randomised process domain.
pub const DOMAIN_FILE: &'static str = "/metadata/watchdog/magisk/.domain";

/// The file that holds the randomised file type.
pub const FILETYPE_FILE: &'static str = "/metadata/watchdog/magisk/.filetype";

/// The directory of the two files above.
pub const DOMAIN_DIR: &'static str = "/metadata/watchdog/magisk";

// ---------------------------------------------------------------------------
// Random names
// ---------------------------------------------------------------------------

/// The number of characters of a random name.
pub const RANDOM_NAME_LEN: usize = 10;

/// One step of the generator: `s * 1103515245 + 12345`, modulo 2^128.
pub open spec fn lcg_next(s: u128) -> u128 {
    u128_specs::wrapping_add(u128_specs::wrapping_mul(s, 1103515245), 12345)
}

/// The generator's state after `i` steps from `seed`.
pub open spec fn lcg_state(seed: u128, i: nat) -> u128
    decreases i,
{
    if i == 0 {
        seed
    } else {
        lcg_next(lcg_state(seed, (i - 1) as nat))
    }
}

/// Character `i` of the alphabet `a`..`z` then `0`..`9`.
pub open spec fn alphabet_char(i: int) -> char {
    if i < 26 {
        (97 + i) as char
    } else {
        (22 + i) as char
    }
}

/// Whether `c` is a lower-case ASCII letter or a digit.
pub open spec fn in_alphabet(c: char) -> bool {
    (97 <= c as u32 && c as u32 <= 122) || (48 <= c as u32 && c as u32 <= 57)
}

/// The random name drawn from `seed`: character `i` is the alphabet's
/// character at the generator's state after `i` steps, modulo 36.
pub open spec fn random_name(seed: u128) -> Seq<char> {
    Seq::new(RANDOM_NAME_LEN as nat, |i: int| alphabet_char((lcg_state(seed, i as nat) % 36) as int))
}

/// The random name drawn from `seed`.
pub fn random_name_from_seed(seed: u128) -> (r: String)
    ensures
        r@ == random_name(seed),
{
    let mut name = String::new();
    let mut s = seed;
    let mut i: usize = 0;
    while i < RANDOM_NAME_LEN
        invariant
            i <= RANDOM_NAME_LEN,
            s == lcg_state(seed, i as nat),
            name@ == random_name(seed).take(i as int),
        decreases RANDOM_NAME_LEN - i,
    {
        let b = (s % 36) as u8;
        let c = if b < 26 {
            (97 + b) as char
        } else {
            (22 + b) as char
        };
        assert(c == alphabet_char((lcg_state(seed, i as nat) % 36) as int));
        push_char(&mut name, c);
        assert(name@ =~= random_name(seed).take(i + 1));
        s = s.wrapping_mul(1103515245).wrapping_add(12345);
        i = i + 1;
    }
    assert(random_name(seed).take(RANDOM_NAME_LEN as int) =~= random_name(seed));
    name
}

/// A random name for a SELinux type: the generator is seeded with the time
/// in nanoseconds since the Unix epoch (0 when the clock is before it) plus
/// `seed_offset`, modulo 2^128.
pub fn generate_random_name(now_nanos: u128, seed_offset: u128) -> (r: String)
    ensures
        r@ == random_name(u128_specs::wrapping_add(now_nanos, seed_offset)),
{
    random_name_from_seed(now_nanos.wrapping_add(seed_offset))
}

/// The names to save at boot: none when both the domain file and the
/// file-type file already exist; otherwise a new domain drawn with seed
/// offset 0 at the first clock reading and a new file type drawn with seed
/// offset 1 at the second.
pub fn generate_and_save_domain(
    domain_exists: bool,
    filetype_exists: bool,
    first_nanos: u128,
    second_nanos: u128,
) -> (r: Option<(String, String)>)
    ensures
        match r {
            None => domain_exists && filetype_exists,
            Some((domain, filetype)) => !(domain_exists && filetype_exists) && domain@ == random_name(
                u128_specs::wrapping_add(first_nanos, 0),
            ) && filetype@ == random_name(u128_specs::wrapping_add(second_nanos, 1)),
        },
{
    if domain_exists && filetype_exists {
        return None;
    }
    let domain = generate_random_name(first_nanos, 0);
    let filetype = generate_random_name(second_nanos, 1);
    Some((domain, filetype))
}

/// Law: a random name has ten characters, each a lower-case ASCII letter or
/// a digit.
pub proof fn law_random_name_shape(seed: u128)
    ensures
        random_name(seed).len() == RANDOM_NAME_LEN,
        forall|i: int| 0 <= i < random_name(seed).len() ==> in_alphabet(#[trigger] random_name(seed)[i]),
{
    assert forall|i: int| 0 <= i < random_name(seed).len() implies in_alphabet(
        #[trigger] random_name(seed)[i],
    ) by {
        let k = (lcg_state(seed, i as nat) % 36) as int;
        assert(0 <= k < 36);
    }
}

// ---------------------------------------------------------------------------
// Saved names and contexts
// ---------------------------------------------------------------------------

/// The name kept in a saved file: its trimmed contents, unless the file
/// could not be read (`None`) or holds only whitespace, when `fallback` is
/// used.
pub open spec fn saved_name(contents: Option<Seq<char>>, fallback: Seq<char>) -> Seq<char> {
    match contents {
        Some(c) => if trim(c).len() > 0 {
            trim(c)
        } else {
            fallback
        },
        None => fallback,
    }
}

fn saved_name_or(contents: Option<&str>, fallback: &str) -> (r: String)
    ensures
        r@ == saved_name(
            match contents {
                Some(c) => Some(c@),
                None => None,
            },
            fallback@,
        ),
{
    match contents {
        Some(c) => {
            let cs = chars_of(c);
            let (a, b) = trim_range(&cs, 0, cs.len());
            assert(cs@.subrange(0, cs@.len() as int) =~= cs@);
            if a < b {
                string_of_range(&cs, a, b)
            } else {
                fallback.to_owned()
            }
        },
        None => fallback.to_owned(),
    }
}

/// The process domain, given the contents of the domain file (`None` when
/// it cannot be read).
pub fn get_sepol_proc_domain(domain_file: Option<&str>) -> (r: String)
    ensures
        r@ == saved_name(
            match domain_file {
                Some(c) => Some(c@),
                None => None,
            },
            SEPOL_PROC_DOMAIN@,
        ),
{
    saved_name_or(domain_file, SEPOL_PROC_DOMAIN)
}

/// The file type, given the contents of the file-type file (`None` when it
/// cannot be read).
pub fn get_sepol_file_type(filetype_file: Option<&str>) -> (r: String)
    ensures
        r@ == saved_name(
            match filetype_file {
                Some(c) => Some(c@),
                None => None,
            },
            SEPOL_FILE_TYPE@,
        ),
{
    saved_name_or(filetype_file, SEPOL_FILE_TYPE)
}

/// The security context of the daemon's processes, `u:r:<domain>:s0`.
pub fn magisk_proc_con(domain_file: Option<&str>) -> (r: String)
    ensures
        r@ == "u:r:"@ + saved_name(
            match domain_file {
                Some(c) => Some(c@),
                None => None,
            },
            SEPOL_PROC_DOMAIN@,
        ) + ":s0"@,
{
    let d = get_sepol_proc_domain(domain_file);
    let mut r = concat("u:r:", d.as_str());
    r.append(":s0");
    r
}

/// The security context of the daemon's files, `u:object_r:<type>:s0`.
pub fn magisk_file_con(filetype_file: Option<&str>) -> (r: String)
    ensures
        r@ == "u:object_r:"@ + saved_name(
            match filetype_file {
                Some(c) => Some(c@),
                None => None,
            },
            SEPOL_FILE_TYPE@,
        ) + ":s0"@,
{
    let t = get_sepol_file_type(filetype_file);
    let mut r = concat("u:object_r:", t.as_str());
    r.append(":s0");
    r
}

} // verus!
