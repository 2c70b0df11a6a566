//! Canonical search keys: full-width Latin letters and digits are folded to
//! their half-width forms, and the result is lower-cased with Unicode's
//! locale-independent case folding, so that visually equivalent strings
//! compare equal during search. The width fold is verified character by
//! character; the case folding is `str::to_lowercase` behind a trusted
//! wrapper whose result carries the name `lower_of`.

use vstd::prelude::*;

verus! {

/// How one character is width-folded: full-width capitals
/// (U+FF21..U+FF3A), full-width small letters (U+FF41..U+FF5A) and
/// full-width digits (U+FF10..U+FF19) become their half-width forms (an
/// offset of 0xFEE0, keeping case); every other character is kept as it
/// is. Lower-casing happens afterwards, on the whole string.
pub open spec fn width_fold_char(c: char) -> char {
    let u = c as int;
    if 0xFF21 <= u && u <= 0xFF3A {
        (u - 0xFEE0) as char
    } else if 0xFF41 <= u && u <= 0xFF5A {
        (u - 0xFEE0) as char
    } else if 0xFF10 <= u && u <= 0xFF19 {
        (u - 0xFEE0) as char
    } else {
        c
    }
}

/// The string with every character width-folded.
pub open spec fn width_fold(s: Seq<char>) -> Seq<char> {
    s.map_values(|c: char| width_fold_char(c))
}

/// The lowercase equivalent of a string under Unicode's locale-independent
/// case folding: what `str::to_lowercase` returns. A pure function of the
/// characters; its exact mapping tables are not written out here.
pub uninterp spec fn lower_of(s: Seq<char>) -> Seq<char>;

/// The canonical search key of a string: width-folded, then lower-cased.
pub open spec fn normalize_spec(s: Seq<char>) -> Seq<char> {
    lower_of(width_fold(s))
}

/// Holds an ASCII capital letter.
pub open spec fn contains_ascii_upper(s: Seq<char>) -> bool {
    exists|i: int| 0 <= i < s.len() && 0x41 <= #[trigger] s[i] as int <= 0x5A
}

/// Holds a full-width Latin letter or digit.
pub open spec fn contains_fullwidth_alnum(s: Seq<char>) -> bool {
    exists|i: int|
        0 <= i < s.len() && {
            let u = #[trigger] s[i] as int;
            (0xFF21 <= u && u <= 0xFF3A) || (0xFF41 <= u && u <= 0xFF5A) || (0xFF10 <= u && u
                <= 0xFF19)
        }
}

/// A width-folded string holds no full-width letter or digit: the folded
/// ranges land on ASCII, and everything else was outside them already.
pub proof fn lemma_width_fold_no_fullwidth(s: Seq<char>)
    ensures
        !contains_fullwidth_alnum(width_fold(s)),
{
}

/// Width folding is the identity on a string without full-width letters
/// and digits.
pub proof fn lemma_width_fold_identity(s: Seq<char>)
    requires
        !contains_fullwidth_alnum(s),
    ensures
        width_fold(s) == s,
{
    assert(width_fold(s) =~= s);
}

/// Width-folds one character, as `width_fold_char` describes.
pub fn width_fold_char_exec(c: char) -> (r: char)
    ensures
        r == width_fold_char(c),
{
    let u = c as u32;
    if 0xFF21 <= u && u <= 0xFF3A {
        ((u - 0xFEE0) as u8) as char
    } else if 0xFF41 <= u && u <= 0xFF5A {
        ((u - 0xFEE0) as u8) as char
    } else if 0xFF10 <= u && u <= 0xFF19 {
        ((u - 0xFEE0) as u8) as char
    } else {
        c
    }
}

/// Relies on `String`'s `FromIterator<char>`: collecting characters yields
/// the string made of exactly those characters in order.
#[verifier::external_body]
pub(crate) fn string_from_chars(v: &Vec<char>) -> (r: String)
    ensures
        r@ == v@,
{
    v.iter().collect()
}

/// Relies on `str::to_lowercase`: the lowercase equivalent of the string,
/// by Unicode's locale-independent lowercase mappings, a pure function of
/// the characters. The further clauses hold because a lowercase equivalent
/// is itself lowercase: it is its own lowercase equivalent, it holds no
/// capital letter (so none in the ASCII range), and it holds a full-width
/// letter or digit only where the input did, since the full-width small
/// letters are the lowercase forms of the full-width capitals alone and
/// digits have no case. An empty string stays empty.
#[verifier::external_body]
fn lowercase(s: &str) -> (r: String)
    ensures
        r@ == lower_of(s@),
        lower_of(r@) == r@,
        !contains_ascii_upper(r@),
        !contains_fullwidth_alnum(s@) ==> !contains_fullwidth_alnum(r@),
        s@.len() == 0 ==> r@.len() == 0,
{
    s.to_lowercase()
}

/// The canonical search key of `s`: full-width Latin letters and digits
/// are made half-width and the whole string is lower-cased. Pure and
/// total; an empty string maps to an empty string. The second clause is
/// the idempotence law: the result is already normalized, so normalizing
/// it again changes nothing.
pub fn normalize(s: &str) -> (r: String)
    ensures
        r@ == normalize_spec(s@),
        normalize_spec(r@) == r@,
        !contains_ascii_upper(r@),
        !contains_fullwidth_alnum(r@),
        s@.len() == 0 ==> r@.len() == 0,
{
    let n = s.unicode_len();
    let mut out: Vec<char> = Vec::new();
    let mut i: usize = 0;
    while i < n
        invariant
            n == s@.len(),
            i <= n,
            out@ == width_fold(s@.take(i as int)),
        decreases n - i,
    {
        let c = s.get_char(i);
        out.push(width_fold_char_exec(c));
        proof {
            assert(s@.take(i + 1) =~= s@.take(i as int).push(s@[i as int]));
            assert(out@ =~= width_fold(s@.take(i + 1)));
        }
        i = i + 1;
    }
    proof {
        assert(s@.take(n as int) =~= s@);
    }
    let folded = string_from_chars(&out);
    let r = lowercase(folded.as_str());
    proof {
        lemma_width_fold_no_fullwidth(s@);
        lemma_width_fold_identity(r@);
    }
    r
}

} // verus!
