//! Text: the order of strings, sorting, and joining.

use vstd::prelude::*;
use vstd::relations::{sorted_by, total_ordering};
use crate::deep::views;
use crate::types::Scalar;

verus! {

/// The order of strings: by code point, position by position, a prefix before
/// what it is a prefix of.
pub open spec fn text_le(a: Seq<char>, b: Seq<char>) -> bool
    decreases a.len(),
{
    if a.len() == 0 {
        true
    } else if b.len() == 0 {
        false
    } else if a[0] != b[0] {
        (a[0] as int) < (b[0] as int)
    } else {
        text_le(a.skip(1), b.skip(1))
    }
}

/// The order of strings as a relation.
pub open spec fn text_order() -> spec_fn(Seq<char>, Seq<char>) -> bool {
    |a: Seq<char>, b: Seq<char>| text_le(a, b)
}

proof fn lemma_text_le_refl(a: Seq<char>)
    ensures
        text_le(a, a),
    decreases a.len(),
{
    if a.len() > 0 {
        lemma_text_le_refl(a.skip(1));
    }
}

proof fn lemma_text_le_antisym(a: Seq<char>, b: Seq<char>)
    requires
        text_le(a, b),
        text_le(b, a),
    ensures
        a == b,
    decreases a.len(),
{
    if a.len() == 0 {
        assert(a =~= b);
    } else {
        lemma_text_le_antisym(a.skip(1), b.skip(1));
        assert(a =~= seq![a[0]] + a.skip(1));
        assert(b =~= seq![b[0]] + b.skip(1));
    }
}

proof fn lemma_text_le_trans(a: Seq<char>, b: Seq<char>, c: Seq<char>)
    requires
        text_le(a, b),
        text_le(b, c),
    ensures
        text_le(a, c),
    decreases a.len(),
{
    if a.len() > 0 && a[0] == b[0] && b[0] == c[0] {
        lemma_text_le_trans(a.skip(1), b.skip(1), c.skip(1));
    }
}

proof fn lemma_text_le_total(a: Seq<char>, b: Seq<char>)
    ensures
        text_le(a, b) || text_le(b, a),
    decreases a.len(),
{
    if a.len() > 0 && b.len() > 0 {
        if a[0] == b[0] {
            lemma_text_le_total(a.skip(1), b.skip(1));
        } else {
            assert(a[0] as int != b[0] as int);
        }
    }
}

/// The order of strings is a total order.
pub proof fn lemma_text_order_total()
    ensures
        total_ordering(text_order()),
{
    let r = text_order();
    assert forall|x: Seq<char>| #[trigger] r(x, x) by {
        lemma_text_le_refl(x);
    }
    assert forall|x: Seq<char>, y: Seq<char>| #[trigger] r(x, y) && #[trigger] r(y, x) implies x
        == y by {
        lemma_text_le_antisym(x, y);
    }
    assert forall|x: Seq<char>, y: Seq<char>, z: Seq<char>| #[trigger]
        r(x, y) && #[trigger] r(y, z) implies r(x, z) by {
        lemma_text_le_trans(x, y, z);
    }
    assert forall|x: Seq<char>, y: Seq<char>| #[trigger] r(x, y) || #[trigger] r(y, x) by {
        lemma_text_le_total(x, y);
    }
}

/// The strings of a list in ascending order.
pub open spec fn sorted_texts(parts: Seq<Seq<char>>) -> Seq<Seq<char>> {
    parts.sort_by(text_order())
}

/// Sorts strings in place with `sort` of the standard library's slices.
/// Believed of it: the result holds the same strings as often as before, in
/// ascending order, where strings are ordered as the standard library orders
/// them, by code point and position by position.
#[verifier::external_body]
fn sort_texts(v: &mut Vec<String>)
    ensures
        sorted_by(views(final(v)@), text_order()),
        views(final(v)@).to_multiset() == views(old(v)@).to_multiset(),
{
    v.sort();
}

/// The strings of a list in ascending order.
pub fn sorted_strings(v: Vec<String>) -> (r: Vec<String>)
    ensures
        views(r@) == sorted_texts(views(v@)),
{
    let mut r = v;
    sort_texts(&mut r);
    proof {
        let want = sorted_texts(views(v@));
        lemma_text_order_total();
        views(v@).lemma_sort_by_ensures(text_order());
        vstd::seq_lib::lemma_sorted_unique(views(r@), want, text_order());
    }
    r
}

/// The strings of a list one after the other, with a separator between two.
pub open spec fn joined(parts: Seq<Seq<char>>, sep: Seq<char>) -> Seq<char>
    decreases parts.len(),
{
    if parts.len() == 0 {
        Seq::empty()
    } else if parts.len() == 1 {
        parts[0]
    } else {
        joined(parts.drop_last(), sep) + sep + parts.last()
    }
}

/// Joins strings with a separator.
pub fn join(parts: &Vec<String>, sep: &str) -> (r: String)
    ensures
        r@ == joined(views(parts@), sep@),
{
    let mut r = String::new();
    let mut i: usize = 0;
    while i < parts.len()
        invariant
            i <= parts.len(),
            r@ == joined(views(parts@).take(i as int), sep@),
        decreases parts.len() - i,
    {
        proof {
            let t = views(parts@).take(i as int + 1);
            assert(t.drop_last() =~= views(parts@).take(i as int));
            assert(t.last() == parts@[i as int]@);
            if i == 0 {
                assert(r@ + parts@[0]@ =~= parts@[0]@);
            }
        }
        if i > 0 {
            r.append(sep);
        }
        r.append(parts[i].as_str());
        i += 1;
    }
    assert(views(parts@).take(parts.len() as int) =~= views(parts@));
    r
}

/// A string without the prefix that it starts with, as often as it starts
/// with it.
pub open spec fn stripped(s: Seq<char>, prefix: Seq<char>) -> Seq<char>
    decreases s.len(),
{
    if prefix.len() > 0 && s.len() >= prefix.len() && s.subrange(0, prefix.len() as int)
        == prefix {
        stripped(s.skip(prefix.len() as int), prefix)
    } else {
        s
    }
}

/// Strips a prefix with `trim_start_matches` of the standard library's
/// strings. Believed of it: the result is the string without the prefix,
/// removed as often as the string starts with it.
#[verifier::external_body]
pub(crate) fn strip_prefix_all(s: &str, prefix: &str) -> (r: String)
    requires
        prefix@.len() > 0,
    ensures
        r@ == stripped(s@, prefix@),
{
    s.trim_start_matches(prefix).to_string()
}

/// Whether a string slice is a given text.
pub fn is_text(s: &str, text: &str) -> (r: bool)
    ensures
        r == (s@ == text@),
{
    let a = String::from_str(s);
    let b = String::from_str(text);
    a == b
}

/// The digit of a number below ten.
pub open spec fn digit_text(d: nat) -> Seq<char> {
    if d == 0 {
        "0"@
    } else if d == 1 {
        "1"@
    } else if d == 2 {
        "2"@
    } else if d == 3 {
        "3"@
    } else if d == 4 {
        "4"@
    } else if d == 5 {
        "5"@
    } else if d == 6 {
        "6"@
    } else if d == 7 {
        "7"@
    } else if d == 8 {
        "8"@
    } else {
        "9"@
    }
}

/// A number in decimal digits.
pub open spec fn decimal_text(n: nat) -> Seq<char>
    decreases n,
{
    if n < 10 {
        digit_text(n)
    } else {
        decimal_text(n / 10) + digit_text(n % 10)
    }
}

/// The digit of a number below ten.
fn digit(d: u64) -> (r: &'static str)
    requires
        d < 10,
    ensures
        r@ == digit_text(d as nat),
{
    if d == 0 {
        "0"
    } else if d == 1 {
        "1"
    } else if d == 2 {
        "2"
    } else if d == 3 {
        "3"
    } else if d == 4 {
        "4"
    } else if d == 5 {
        "5"
    } else if d == 6 {
        "6"
    } else if d == 7 {
        "7"
    } else if d == 8 {
        "8"
    } else {
        "9"
    }
}

/// A number in decimal digits.
pub fn decimal(n: u64) -> (r: String)
    ensures
        r@ == decimal_text(n as nat),
    decreases n,
{
    if n < 10 {
        String::from_str(digit(n))
    } else {
        let mut r = decimal(n / 10);
        r.append(digit(n % 10));
        r
    }
}

/// A label and a number, with a space between them.
pub fn numbered(label: &str, n: u64) -> (r: String)
    ensures
        r@ == label@ + " "@ + decimal_text(n as nat),
{
    let mut r = String::from_str(label);
    r.append(" ");
    let d = decimal(n);
    r.append(d.as_str());
    r
}

/// The thousandths of a scalar after the decimal point, ending zeros left
/// out.
pub open spec fn fraction_text(f: nat) -> Seq<char> {
    if f % 100 == 0 {
        digit_text(f / 100)
    } else if f % 10 == 0 {
        digit_text(f / 100) + digit_text((f / 10) % 10)
    } else {
        digit_text(f / 100) + digit_text((f / 10) % 10) + digit_text(f % 10)
    }
}

/// A magnitude in thousandths as a decimal number: its whole part, and its
/// thousandths after a point where it has any.
pub open spec fn magnitude_text(m: nat) -> Seq<char> {
    if m % 1000 == 0 {
        decimal_text(m / 1000)
    } else {
        decimal_text(m / 1000) + "."@ + fraction_text(m % 1000)
    }
}

/// A scalar as a decimal number, with a minus sign before it where it is
/// negative.
pub open spec fn scalar_text(v: Scalar) -> Seq<char> {
    if v < 0 {
        "-"@ + magnitude_text((-(v as int)) as nat)
    } else {
        magnitude_text(v as nat)
    }
}

/// A scalar as a decimal number.
pub fn scalar_to_string(v: Scalar) -> (r: String)
    ensures
        r@ == scalar_text(v),
{
    let m: u64 = if v < 0 { (-(v as i64)) as u64 } else { v as u64 };
    let mut r = if v < 0 { String::from_str("-") } else { String::new() };
    let whole = decimal(m / 1000);
    r.append(whole.as_str());
    let f: u64 = m % 1000;
    if f != 0 {
        r.append(".");
        r.append(digit(f / 100));
        if f % 100 != 0 {
            r.append(digit((f / 10) % 10));
            if f % 10 != 0 {
                r.append(digit(f % 10));
            }
        }
    }
    proof {
        assert(Seq::<char>::empty() + decimal_text((m / 1000) as nat) =~= decimal_text(
            (m / 1000) as nat,
        ));
        if f != 0 {
            let w = decimal_text((m / 1000) as nat);
            let d1 = digit_text((f / 100) as nat);
            let d2 = digit_text(((f / 10) % 10) as nat);
            let d3 = digit_text((f % 10) as nat);
            assert((w + "."@) + d1 =~= w + "."@ + d1);
            assert(((w + "."@) + d1) + d2 =~= w + "."@ + (d1 + d2));
            assert((((w + "."@) + d1) + d2) + d3 =~= w + "."@ + (d1 + d2 + d3));
            assert((("-"@ + w) + "."@) + d1 =~= "-"@ + (w + "."@ + d1));
            assert(((("-"@ + w) + "."@) + d1) + d2 =~= "-"@ + (w + "."@ + (d1 + d2)));
            assert((((("-"@ + w) + "."@) + d1) + d2) + d3 =~= "-"@ + (w + "."@ + (d1 + d2 + d3)));
        }
    }
    r
}

/// A text with its letters in lower case, as the standard library lowers
/// them.
pub uninterp spec fn lowercase(s: Seq<char>) -> Seq<char>;

/// Lowers a text with `to_lowercase` of the standard library's strings. The
/// result is named, not stated: it is a function of the text alone.
#[verifier::external_body]
pub(crate) fn to_lower(s: &str) -> (r: String)
    ensures
        r@ == lowercase(s@),
{
    s.to_lowercase()
}

/// Whether a text holds another as a run of consecutive characters.
pub open spec fn holds_text(s: Seq<char>, part: Seq<char>) -> bool {
    exists|i: int| 0 <= i && i + part.len() <= s.len() && #[trigger] s.subrange(i, i + part.len()) == part
}

/// Searches a text with `contains` of the standard library's strings.
/// Believed of it: the answer is whether the text holds the other as a run of
/// consecutive characters.
#[verifier::external_body]
pub(crate) fn has_text(s: &str, part: &str) -> (r: bool)
    ensures
        r == holds_text(s@, part@),
{
    s.contains(part)
}

} // verus!
