//! The configuration of a run, built once from plain values and handed to
//! every stage: where the repository is, where its manifest is, how large a
//! file must be to count as large, and where the result goes.

use vstd::prelude::*;
use crate::paths::{child_path, join_child, tail_from};
use crate::text::{chars_of, views};

verus! {

/// The threshold that holds where none is configured: 100 MB.
pub const SOTA_SIDESTEP_LARGE_FILE_SIZE: u64 = 100000000;

/// The name of the manifest file.
pub open spec fn manifest_name() -> Seq<char> {
    ".sotaignore"@
}

/// What a run needs to know.
pub struct Behaviour {
    pub repo_dir_path: String,
    pub repo_sotaignore_path: String,
    pub large_file_size: u64,
    pub plumbing: bool,
    pub separator: char,
}

/// The flags of the command line.
#[derive(Clone, Copy, Debug, PartialEq, Eq, Structural)]
pub struct Flags {
    pub search_here: bool,
    pub plumbing: bool,
}

impl Behaviour {
    /// Holds of a configuration that a run can use: the threshold is
    /// positive, and the manifest stands directly in the repository.
    pub open spec fn well_formed(&self) -> bool {
        &&& self.large_file_size >= 1
        &&& self.repo_sotaignore_path@ == child_path(
            self.repo_dir_path@,
            manifest_name(),
            self.separator,
        )
    }

    /// The configuration for the repository at `repo_dir`. `threshold_text`
    /// is the configured threshold as text, if one is configured; where it
    /// is no positive number that fits, the default holds.
    pub fn new(repo_dir: &str, threshold_text: Option<&str>, flags: Flags, separator: char) -> (out:
        Behaviour)
        ensures
            out.well_formed(),
            out.repo_dir_path@ == repo_dir@,
            out.large_file_size == configured_threshold(threshold_view(threshold_text)),
            out.plumbing == flags.plumbing,
            out.separator == separator,
    {
        Behaviour {
            repo_dir_path: String::from_str(repo_dir),
            repo_sotaignore_path: join_child(repo_dir, ".sotaignore", separator),
            large_file_size: threshold_from(threshold_text),
            plumbing: flags.plumbing,
            separator,
        }
    }
}

/// Holds of the ten decimal digits.
pub open spec fn is_digit(c: char) -> bool {
    '0' <= c <= '9'
}

/// The number that a digit stands for.
pub open spec fn digit_of(c: char) -> nat {
    (c as u32 - '0' as u32) as nat
}

/// The number that a text of decimal digits stands for. `None` where the
/// text is empty or holds anything but digits.
pub open spec fn decimal_value(s: Seq<char>) -> Option<nat>
    decreases s.len(),
{
    if s.len() == 0 || !is_digit(s.last()) {
        None
    } else if s.len() == 1 {
        Some(digit_of(s.last()))
    } else {
        match decimal_value(s.drop_last()) {
            Some(v) => Some(v * 10 + digit_of(s.last())),
            None => None,
        }
    }
}

/// `text` without the plus sign that may stand before its digits.
pub open spec fn unsigned_part(text: Seq<char>) -> Seq<char> {
    if text.len() > 0 && text[0] == '+' {
        text.skip(1)
    } else {
        text
    }
}

/// The threshold that a text gives: its decimal value, where the text is
/// decimal digits, with or without a plus sign before them, and the value
/// is positive and fits in 64 bits.
pub open spec fn threshold_value(text: Seq<char>) -> Option<u64> {
    match decimal_value(unsigned_part(text)) {
        Some(n) if 1 <= n <= u64::MAX => Some(n as u64),
        _ => None,
    }
}

/// The characters of the configured threshold, where one is configured.
pub open spec fn threshold_view(text: Option<&str>) -> Option<Seq<char>> {
    match text {
        Some(t) => Some(t@),
        None => None,
    }
}

/// The threshold of a run: the configured one where it is valid, else the
/// default.
pub open spec fn configured_threshold(text: Option<Seq<char>>) -> u64 {
    match text {
        Some(t) => match threshold_value(t) {
            Some(v) => v,
            None => SOTA_SIDESTEP_LARGE_FILE_SIZE,
        },
        None => SOTA_SIDESTEP_LARGE_FILE_SIZE,
    }
}

/// A text of digits is worth at least as much as any text of digits it
/// starts with.
pub proof fn lemma_decimal_grows(s: Seq<char>, i: int)
    requires
        1 <= i <= s.len(),
        decimal_value(s) is Some,
    ensures
        decimal_value(s.take(i)) is Some,
        decimal_value(s.take(i))->0 <= decimal_value(s)->0,
    decreases s.len() - i,
{
    if i == s.len() {
        assert(s.take(i) == s);
    } else {
        lemma_decimal_grows(s.drop_last(), i);
        assert(s.drop_last().take(i) == s.take(i));
    }
}

/// Reads a threshold. `None` exactly where the text is no positive decimal
/// number that fits in 64 bits.
pub fn parse_threshold(text: &str) -> (out: Option<u64>)
    ensures
        out == threshold_value(text@),
{
    let chars = chars_of(text);
    let from: usize = if chars.len() > 0 && chars[0] == '+' {
        1
    } else {
        0
    };
    let digits = tail_from(&chars, from);
    proof {
        assert(chars@.skip(0) == chars@);
        assert(digits@ == unsigned_part(text@));
    }
    if digits.len() == 0 {
        return None;
    }
    let mut acc: u64 = 0;
    let mut i: usize = 0;
    while i < digits.len()
        invariant
            i <= digits.len(),
            digits.len() > 0,
            digits@ == unsigned_part(text@),
            i == 0 ==> acc == 0,
            i > 0 ==> decimal_value(digits@.take(i as int)) == Some(acc as nat),
        decreases digits.len() - i,
    {
        let c = digits[i];
        proof {
            assert(digits@.take(i as int + 1).drop_last() == digits@.take(i as int));
            assert(digits@.take(i as int + 1).last() == c);
        }
        if !('0' <= c && c <= '9') {
            proof {
                if decimal_value(digits@) is Some {
                    lemma_decimal_grows(digits@, i as int + 1);
                }
            }
            return None;
        }
        let d: u64 = (c as u32 - '0' as u32) as u64;
        if acc > (u64::MAX - d) / 10 {
            proof {
                if decimal_value(digits@) is Some {
                    lemma_decimal_grows(digits@, i as int + 1);
                }
            }
            return None;
        }
        acc = acc * 10 + d;
        i += 1;
    }
    proof {
        assert(digits@.take(i as int) == digits@);
    }
    if acc == 0 {
        None
    } else {
        Some(acc)
    }
}

/// The threshold of a run, given the configured text if there is one.
pub fn threshold_from(text: Option<&str>) -> (out: u64)
    ensures
        out == configured_threshold(threshold_view(text)),
        out >= 1,
{
    match text {
        Some(t) => match parse_threshold(t) {
            Some(v) => v,
            None => SOTA_SIDESTEP_LARGE_FILE_SIZE,
        },
        None => SOTA_SIDESTEP_LARGE_FILE_SIZE,
    }
}

/// Tells whether `flag` is among the arguments, as an argument of its own.
pub fn has_flag(args: &Vec<String>, flag: &str) -> (b: bool)
    ensures
        b == views(args@).contains(flag@),
{
    let wanted = String::from_str(flag);
    crate::manifest::has_line(args, &wanted)
}

/// Reads the flags off the command line. Other arguments are passed over.
pub fn scan_flags(args: &Vec<String>) -> (flags: Flags)
    ensures
        flags.search_here == views(args@).contains("--search-here"@),
        flags.plumbing == views(args@).contains("--plumbing"@),
{
    Flags { search_here: has_flag(args, "--search-here"), plumbing: has_flag(args, "--plumbing") }
}

} // verus!
