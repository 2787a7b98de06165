//! Building a module's display string: the value placeholder, the icon
//! placeholder and the bucketing of a percentage into an icon table.
use vstd::prelude::*;
use crate::text::{chars_of, replace_all, replaced, string_of};

verus! {

/// The width of each icon bucket for a table of `len` icons: `100 / len`,
/// but never below 1, so that a table of more than 100 icons is still
/// bucketed without dividing by zero.
pub open spec fn bucket_width(len: nat) -> nat {
    if len == 0 || 100nat / len == 0 {
        1
    } else {
        100nat / len
    }
}

/// The bucket of `value` in a table of `len` icons: `value / bucket_width`,
/// clamped to the last bucket.
pub open spec fn icon_bucket(value: nat, len: nat) -> nat
    recommends
        len >= 1,
{
    let q = value / bucket_width(len);
    if q < len {
        q
    } else {
        (len - 1) as nat
    }
}

/// Index of the icon selected for `value` out of `len` icons.
pub fn icon_index(value: usize, len: usize) -> (r: usize)
    requires
        len >= 1,
    ensures
        r == icon_bucket(value as nat, len as nat),
        r < len,
{
    let w: usize = 100 / len;
    let width: usize = if w == 0 { 1 } else { w };
    let q: usize = value / width;
    if q < len {
        q
    } else {
        len - 1
    }
}

pub open spec fn is_digit(c: char) -> bool {
    '0' <= c && c <= '9'
}

pub open spec fn digit_value(c: char) -> nat {
    (c as u32 - '0' as u32) as nat
}

/// The number written by the decimal digits `s` (0 for no digits).
pub open spec fn decimal_value(s: Seq<char>) -> nat
    decreases s.len(),
{
    if s.len() == 0 {
        0
    } else {
        decimal_value(s.drop_last()) * 10 + digit_value(s.last())
    }
}

/// The digits of a number as `usize::from_str` reads it: one optional leading `+`.
pub open spec fn unsigned_digits(s: Seq<char>) -> Seq<char> {
    if s.len() > 0 && s[0] == '+' {
        s.drop_first()
    } else {
        s
    }
}

/// The value of `s` read as an unsigned decimal number that fits in `usize`,
/// or `None` when `s` is no such number.
pub open spec fn parsed_usize(s: Seq<char>) -> Option<nat> {
    let d = unsigned_digits(s);
    if d.len() > 0 && (forall|i: int| 0 <= i < d.len() ==> is_digit(#[trigger] d[i]))
        && decimal_value(d) <= usize::MAX {
        Some(decimal_value(d))
    } else {
        None
    }
}

/// Reads `s` as an unsigned decimal number.
pub fn parse_usize(s: &Vec<char>) -> (r: Option<usize>)
    ensures
        r matches Some(v) ==> parsed_usize(s@) == Some(v as nat),
        r is None ==> parsed_usize(s@) is None,
{
    let start: usize = if s.len() > 0 && s[0] == '+' { 1 } else { 0 };
    let ghost d = unsigned_digits(s@);
    assert(d =~= s@.subrange(start as int, s@.len() as int));
    if start >= s.len() {
        return None;
    }
    let mut acc: usize = 0;
    let mut i: usize = start;
    while i < s.len()
        invariant
            start <= i <= s@.len(),
            d == s@.subrange(start as int, s@.len() as int),
            d == unsigned_digits(s@),
            forall|j: int| start <= j < i ==> is_digit(#[trigger] s@[j]),
            acc as nat == decimal_value(s@.subrange(start as int, i as int)),
        decreases s@.len() - i,
    {
        let c = s[i];
        assert(s@.subrange(start as int, i + 1).drop_last() =~= s@.subrange(start as int, i as int));
        if !('0' <= c && c <= '9') {
            assert(d[i - start] == c);
            assert(!is_digit(d[(i - start) as int]));
            return None;
        }
        let dv: u32 = c as u32 - '0' as u32;
        if acc > (usize::MAX - dv as usize) / 10 {
            proof {
                assert(d.subrange(0, i + 1 - start) =~= s@.subrange(start as int, i + 1));
                assert(digit_value(c) == dv);
                assert(acc * 10 + dv > usize::MAX) by (nonlinear_arith)
                    requires
                        acc > (usize::MAX - dv as usize) / 10,
                        dv <= 9,
                ;
                lemma_decimal_prefix_grows(d, (i + 1 - start) as nat);
            }
            return None;
        }
        acc = acc * 10 + dv as usize;
        i += 1;
    }
    assert(s@.subrange(start as int, i as int) =~= d);
    Some(acc)
}

/// A number's value is at least that of any prefix of its digits.
proof fn lemma_decimal_prefix_grows(d: Seq<char>, k: nat)
    requires
        k <= d.len(),
    ensures
        decimal_value(d.subrange(0, k as int)) <= decimal_value(d),
    decreases d.len() - k,
{
    if k < d.len() {
        lemma_decimal_prefix_grows(d, k + 1);
        assert(d.subrange(0, k + 1int).drop_last() =~= d.subrange(0, k as int));
    } else {
        assert(d.subrange(0, k as int) =~= d);
    }
}

pub open spec fn value_mark() -> Seq<char> {
    seq!['%', 's']
}

pub open spec fn icon_mark() -> Seq<char> {
    seq!['%', 'c']
}

/// The icon that stands for `value` in `icons`: empty when the table is
/// empty or the value is not a number.
pub open spec fn icon_for(value: Seq<char>, icons: Seq<Seq<char>>) -> Seq<char> {
    if icons.len() > 0 && parsed_usize(value) is Some {
        icons[icon_bucket(parsed_usize(value)->0, icons.len()) as int]
    } else {
        Seq::empty()
    }
}

/// The display string of a module: the value in place of each `%s` of the
/// template, then the selected icon in place of each `%c`.
pub open spec fn display_text(template: Seq<char>, value: Seq<char>, icons: Seq<Seq<char>>) -> Seq<
    char,
> {
    replaced(replaced(template, value_mark(), value), icon_mark(), icon_for(value, icons))
}

pub open spec fn views_of(v: Seq<String>) -> Seq<Seq<char>> {
    v.map_values(|s: String| s@)
}

/// Builds the display string of a module from its template, the probed
/// value and its icon table.
pub fn display_string(template: &str, value: &str, icons: &Vec<String>) -> (r: String)
    ensures
        r@ == display_text(template@, value@, views_of(icons@)),
{
    let t = chars_of(template);
    let v = chars_of(value);
    let vm: Vec<char> = vec!['%', 's'];
    let cm: Vec<char> = vec!['%', 'c'];
    assert(vm@ =~= value_mark());
    assert(cm@ =~= icon_mark());
    let first = replace_all(&t, &vm, &v);
    let icon: Vec<char> = if icons.len() > 0 {
        match parse_usize(&v) {
            Some(n) => {
                let k = icon_index(n, icons.len());
                chars_of(icons[k].as_str())
            },
            None => Vec::new(),
        }
    } else {
        Vec::new()
    };
    assert(icon@ =~= icon_for(value@, views_of(icons@)));
    let out = replace_all(&first, &cm, &icon);
    string_of(&out)
}

} // verus!
