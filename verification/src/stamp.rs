//! The names of run files.
//!
//! A run is named by the moment it is stored, as
//! `<year>-<month>-<day>T<hour>-<minute>-<second>` with two digits for each
//! part but the year, which has four or, beyond four digits, a sign. Where
//! a run of that name is stored already, underscores are added to the name
//! until it is free, so that no record is ever replaced and later runs
//! still come later in dictionary order.

use crate::baseline::{record_suffix, texts};
use crate::clock::CivilTime;
use crate::text::{decimal, decimal_string, is_digit, lemma_decimal_round_trip, text_eq};
use vstd::prelude::*;
use vstd::string::*;

verus! {

/// The character that is added to a name that is taken.
pub open spec fn mark() -> char {
    '_'
}

/// Whether a character may stand in the name of a run.
pub open spec fn is_stamp_char(c: char) -> bool {
    is_digit(c) || c == '-' || c == '+' || c == 'T' || c == mark()
}

/// Whether a text is made of the characters of run names.
pub open spec fn stem_shape(s: Seq<char>) -> bool {
    forall|i: int| 0 <= i < s.len() ==> is_stamp_char(#[trigger] s[i])
}

/// A number with at least two digits.
pub open spec fn two_digits(v: nat) -> Seq<char> {
    if v < 10 {
        seq!['0'] + decimal(v)
    } else {
        decimal(v)
    }
}

/// A number with at least four digits.
pub open spec fn four_digits(v: nat) -> Seq<char> {
    if v < 10 {
        seq!['0', '0', '0'] + decimal(v)
    } else if v < 100 {
        seq!['0', '0'] + decimal(v)
    } else if v < 1000 {
        seq!['0'] + decimal(v)
    } else {
        decimal(v)
    }
}

/// A year: four digits, with a sign where it is negative or has more than
/// four digits.
pub open spec fn year_text(year: int) -> Seq<char> {
    if year < 0 {
        seq!['-'] + four_digits((-year) as nat)
    } else if year > 9999 {
        seq!['+'] + decimal(year as nat)
    } else {
        four_digits(year as nat)
    }
}

/// The name of a run stored at the given moment.
pub open spec fn stamp_text(time: CivilTime) -> Seq<char> {
    year_text(time.year as int) + seq!['-'] + two_digits(time.month as nat) + seq!['-']
        + two_digits(time.day as nat) + seq!['T'] + two_digits(time.hour as nat) + seq!['-']
        + two_digits(time.minute as nat) + seq!['-'] + two_digits(time.second as nat)
}

/// A name of this shape holds no `/` and does not end in `.json`.
pub proof fn lemma_stem_shape(s: Seq<char>)
    requires
        stem_shape(s),
    ensures
        !s.contains('/'),
        !record_suffix().is_suffix_of(s),
{
    if s.contains('/') {
        let i = choose|i: int| 0 <= i < s.len() && s[i] == '/';
        assert(is_stamp_char(s[i]));
    }
    reveal_strlit(".json");
    if record_suffix().is_suffix_of(s) {
        let tail = s.subrange(s.len() - 5, s.len() as int);
        assert(tail == ".json"@);
        assert(tail[4] == 'n');
        assert(s[s.len() - 1] == 'n');
        assert(is_stamp_char(s[s.len() - 1]));
    }
}

/// Parts of run names put together give a run name.
proof fn lemma_shape_concat(a: Seq<char>, b: Seq<char>)
    requires
        stem_shape(a),
        stem_shape(b),
    ensures
        stem_shape(a + b),
{
    assert forall|i: int| 0 <= i < (a + b).len() implies is_stamp_char(#[trigger] (a + b)[i]) by {
        if i < a.len() {
            assert((a + b)[i] == a[i]);
        } else {
            assert((a + b)[i] == b[i - a.len()]);
        }
    }
}

/// Writes a number with at least two digits.
fn two_digit_string(v: u32) -> (text: String)
    ensures
        text@ == two_digits(v as nat),
        stem_shape(text@),
{
    proof {
        lemma_decimal_round_trip(v as nat);
        reveal_strlit("0");
        assert("0"@ =~= seq!['0']);
        lemma_shape_concat(seq!['0'], decimal(v as nat));
    }
    if v < 10 {
        let mut text = String::from_str("0");
        text.append(decimal_string(v as u64).as_str());
        text
    } else {
        decimal_string(v as u64)
    }
}

/// Writes a number with at least four digits.
fn four_digit_string(v: u64) -> (text: String)
    ensures
        text@ == four_digits(v as nat),
        stem_shape(text@),
{
    proof {
        lemma_decimal_round_trip(v as nat);
        reveal_strlit("0");
        reveal_strlit("00");
        reveal_strlit("000");
        assert("0"@ =~= seq!['0']);
        assert("00"@ =~= seq!['0', '0']);
        assert("000"@ =~= seq!['0', '0', '0']);
        lemma_shape_concat(seq!['0'], decimal(v as nat));
        lemma_shape_concat(seq!['0', '0'], decimal(v as nat));
        lemma_shape_concat(seq!['0', '0', '0'], decimal(v as nat));
    }
    let mut text = if v < 10 {
        String::from_str("000")
    } else if v < 100 {
        String::from_str("00")
    } else if v < 1000 {
        String::from_str("0")
    } else {
        String::new()
    };
    text.append(decimal_string(v).as_str());
    proof {
        if v >= 1000 {
            assert(text@ =~= decimal(v as nat));
        }
    }
    text
}

/// Writes a year.
fn year_string(year: i32) -> (text: String)
    ensures
        text@ == year_text(year as int),
        stem_shape(text@),
{
    proof {
        reveal_strlit("-");
        reveal_strlit("+");
        assert("-"@ =~= seq!['-']);
        assert("+"@ =~= seq!['+']);
    }
    if year < 0 {
        let magnitude: u64 = (0 - (year as i64)) as u64;
        let digits = four_digit_string(magnitude);
        let mut text = String::from_str("-");
        text.append(digits.as_str());
        proof {
            lemma_shape_concat(seq!['-'], digits@);
        }
        text
    } else if year > 9999 {
        let digits = decimal_string(year as u64);
        let mut text = String::from_str("+");
        text.append(digits.as_str());
        proof {
            lemma_decimal_round_trip(year as nat);
            lemma_shape_concat(seq!['+'], digits@);
        }
        text
    } else {
        four_digit_string(year as u64)
    }
}

/// Appends a separator and a part of two digits.
fn push_part(text: &mut String, separator: &str, v: u32)
    requires
        stem_shape(old(text)@),
        stem_shape(separator@),
    ensures
        final(text)@ == old(text)@ + separator@ + two_digits(v as nat),
        stem_shape(final(text)@),
{
    let part = two_digit_string(v);
    proof {
        lemma_shape_concat(old(text)@, separator@);
        lemma_shape_concat(old(text)@ + separator@, part@);
    }
    text.append(separator);
    text.append(part.as_str());
}

/// The name of a run stored at the given moment.
pub fn file_stamp(time: &CivilTime) -> (text: String)
    ensures
        text@ == stamp_text(*time),
        stem_shape(text@),
{
    proof {
        reveal_strlit("-");
        reveal_strlit("T");
        assert("-"@ =~= seq!['-']);
        assert("T"@ =~= seq!['T']);
    }
    let mut text = year_string(time.year);
    push_part(&mut text, "-", time.month);
    push_part(&mut text, "-", time.day);
    push_part(&mut text, "T", time.hour);
    push_part(&mut text, "-", time.minute);
    push_part(&mut text, "-", time.second);
    text
}

/// `stamp` with `k` marks behind it.
pub open spec fn marked(stamp: Seq<char>, k: nat) -> Seq<char> {
    stamp + Seq::new(k, |i: int| mark())
}

/// Whether a run of this name is among the entries of a directory.
pub open spec fn taken(entries: Seq<Seq<char>>, stem: Seq<char>) -> bool {
    exists|i: int| 0 <= i < entries.len() && #[trigger] entries[i] == stem + record_suffix()
}

/// Whether `k` marks make the first name that is free.
pub open spec fn first_free(entries: Seq<Seq<char>>, stamp: Seq<char>, k: nat) -> bool {
    &&& !taken(entries, marked(stamp, k))
    &&& forall|j: nat| j < k ==> taken(entries, #[trigger] marked(stamp, j))
}

/// Whether a file of this name is among the entries.
fn holds_name(entries: &Vec<String>, name: &str) -> (held: bool)
    ensures
        held == exists|i: int| 0 <= i < entries@.len() && #[trigger] texts(entries@)[i] == name@,
{
    let mut i: usize = 0;
    while i < entries.len()
        invariant
            i <= entries@.len(),
            forall|k: int| 0 <= k < i ==> #[trigger] texts(entries@)[k] != name@,
        decreases entries@.len() - i,
    {
        if text_eq(entries[i].as_str(), name) {
            assert(texts(entries@)[i as int] == name@);
            return true;
        }
        i += 1;
    }
    false
}

/// Length of the longest entry.
fn longest(entries: &Vec<String>) -> (len: usize)
    ensures
        forall|i: int| 0 <= i < entries@.len() ==> (#[trigger] texts(entries@)[i]).len() <= len,
{
    let mut len: usize = 0;
    let mut i: usize = 0;
    while i < entries.len()
        invariant
            i <= entries@.len(),
            forall|k: int| 0 <= k < i ==> (#[trigger] texts(entries@)[k]).len() <= len,
        decreases entries@.len() - i,
    {
        let chars = crate::text::to_chars(entries[i].as_str());
        if chars.len() > len {
            len = chars.len();
        }
        i += 1;
    }
    len
}

/// The name under which a run of the moment `stamp` is stored in a
/// directory with the given entries: `stamp` itself where it is free, else
/// `stamp` with as many marks as it takes.
pub fn unused_run_name(entries: &Vec<String>, stamp: &str) -> (name: String)
    ensures
        exists|k: nat| first_free(texts(entries@), stamp@, k) && name@ == #[trigger] marked(stamp@, k),
        !taken(texts(entries@), name@),
        stem_shape(stamp@) ==> stem_shape(name@),
{
    let bound = longest(entries);
    let mut name = String::from_str(stamp);
    let mut k: usize = 0;
    proof {
        reveal_strlit("_");
        reveal_strlit(".json");
        assert("_"@ =~= seq![mark()]);
        assert(name@ =~= marked(stamp@, 0));
    }
    loop
        invariant
            k <= bound,
            name@ == marked(stamp@, k as nat),
            forall|j: nat| j < k ==> taken(texts(entries@), #[trigger] marked(stamp@, j)),
            forall|i: int|
                0 <= i < entries@.len() ==> (#[trigger] texts(entries@)[i]).len() <= bound,
            stem_shape(stamp@) ==> stem_shape(name@),
            "_"@ == seq![mark()],
        decreases bound - k,
    {
        let file = crate::text::concat(name.as_str(), ".json");
        if !holds_name(entries, file.as_str()) {
            proof {
                assert(first_free(texts(entries@), stamp@, k as nat));
            }
            return name;
        }
        proof {
            let i = choose|i: int| 0 <= i < entries@.len() && #[trigger] texts(entries@)[i] == file@;
            reveal_strlit(".json");
            assert(texts(entries@)[i] == name@ + record_suffix());
            assert(taken(texts(entries@), marked(stamp@, k as nat)));
            assert(texts(entries@)[i].len() == name@.len() + 5);
            assert(name@.len() == stamp@.len() + k);
            if stem_shape(stamp@) {
                lemma_shape_concat(name@, seq![mark()]);
            }
        }
        name.append("_");
        k += 1;
        proof {
            assert(name@ =~= marked(stamp@, k as nat));
        }
    }
}

} // verus!
