//! The stylesheet as the engine reads it: rule blocks `selector { body }`,
//! the choice of a module's block by its name or the `*` wildcard, and the
//! value of one declaration `property: value;` of a block.
use vstd::prelude::*;
use crate::text::{chars_of, s_tail, string_of};
use crate::words::{before_char, cut_at, trim, trimmed, views};

verus! {

/// The pieces of `s` between occurrences of `c`, as `str::split` gives them.
pub open spec fn split_on(s: Seq<char>, c: char) -> Seq<Seq<char>>
    decreases s.len(),
{
    let h = before_char(s, c);
    if h.len() >= s.len() {
        seq![s]
    } else {
        seq![h] + split_on(s.subrange(h.len() + 1int, s.len() as int), c)
    }
}

proof fn lemma_before_char(s: Seq<char>, c: char)
    ensures
        before_char(s, c).len() <= s.len(),
        before_char(s, c) == s.subrange(0, before_char(s, c).len() as int),
        before_char(s, c).len() < s.len() ==> s[before_char(s, c).len() as int] == c,
        forall|i: int| 0 <= i < before_char(s, c).len() ==> s[i] != c,
    decreases s.len(),
{
    if s.len() > 0 && s[0] != c {
        lemma_before_char(s.drop_first(), c);
        assert(before_char(s, c) =~= s.subrange(0, before_char(s, c).len() as int));
        assert forall|i: int| 0 <= i < before_char(s, c).len() implies s[i] != c by {
            if i > 0 {
                assert(s[i] == s.drop_first()[i - 1]);
            }
        }
    } else if s.len() > 0 {
        assert(before_char(s, c) =~= s.subrange(0, 0));
    }
}

/// Splits `s` at every `c`.
pub fn split_chars(s: &Vec<char>, c: char) -> (r: Vec<Vec<char>>)
    ensures
        views(r@) == split_on(s@, c),
{
    let mut out: Vec<Vec<char>> = Vec::new();
    let mut rest = s_tail(s, 0);
    assert(rest@ =~= s@);
    assert(views(out@) =~= Seq::<Seq<char>>::empty());
    loop
        invariant
            split_on(s@, c) == views(out@) + split_on(rest@, c),
        decreases rest@.len(),
    {
        let h = cut_at(&rest, c);
        proof {
            lemma_before_char(rest@, c);
        }
        let ghost v0 = views(out@);
        if h.len() >= rest.len() {
            out.push(rest);
            assert(views(out@) =~= v0.push(split_on(rest@, c)[0]));
            assert(views(out@) =~= v0 + split_on(rest@, c));
            return out;
        }
        let next = s_tail(&rest, h.len() + 1);
        let ghost hv = h@;
        out.push(h);
        assert(views(out@) =~= v0.push(hv));
        assert(split_on(rest@, c) =~= seq![hv] + split_on(next@, c));
        assert(v0 + split_on(rest@, c) =~= v0.push(hv) + split_on(next@, c));
        rest = next;
    }
}

/// A rule block: the trimmed selector and the body between the braces.
pub struct StyleRule {
    pub selector: String,
    pub body: String,
}

/// The rule of one piece `selector { body` of a stylesheet split at `}`;
/// none when the piece has no `{`.
pub open spec fn rule_of(piece: Seq<char>) -> Option<(Seq<char>, Seq<char>)> {
    let sel = before_char(piece, '{');
    if sel.len() >= piece.len() {
        None
    } else {
        Some((trimmed(sel), piece.subrange(sel.len() + 1int, piece.len() as int)))
    }
}

/// The rules of the pieces `p`, in order.
pub open spec fn rules_in(p: Seq<Seq<char>>) -> Seq<(Seq<char>, Seq<char>)>
    decreases p.len(),
{
    if p.len() == 0 {
        Seq::empty()
    } else {
        match rule_of(p.last()) {
            Some(r) => rules_in(p.drop_last()).push(r),
            None => rules_in(p.drop_last()),
        }
    }
}

/// The rule blocks of a stylesheet, in order.
pub open spec fn rules_of(css: Seq<char>) -> Seq<(Seq<char>, Seq<char>)> {
    rules_in(split_on(css, '}'))
}

/// The selectors and bodies of `r`.
pub open spec fn rule_views(r: Seq<StyleRule>) -> Seq<(Seq<char>, Seq<char>)> {
    r.map_values(|x: StyleRule| (x.selector@, x.body@))
}

/// Reads the rule blocks of a stylesheet.
pub fn parse_rules(css: &str) -> (r: Vec<StyleRule>)
    ensures
        rule_views(r@) == rules_of(css@),
{
    let pieces = split_chars(&chars_of(css), '}');
    let mut out: Vec<StyleRule> = Vec::new();
    let mut i: usize = 0;
    assert(rule_views(out@) =~= rules_in(views(pieces@).subrange(0, 0)));
    while i < pieces.len()
        invariant
            i <= pieces@.len(),
            views(pieces@) == split_on(css@, '}'),
            rule_views(out@) == rules_in(views(pieces@).subrange(0, i as int)),
        decreases pieces@.len() - i,
    {
        let piece = &pieces[i];
        let ghost pv = views(pieces@);
        assert(pv.subrange(0, i + 1).drop_last() =~= pv.subrange(0, i as int));
        assert(pv.subrange(0, i + 1).last() == piece@);
        let sel = cut_at(piece, '{');
        proof {
            lemma_before_char(piece@, '{');
        }
        if sel.len() < piece.len() {
            let body = s_tail(piece, sel.len() + 1);
            let rule = StyleRule { selector: string_of(&trim(&sel)), body: string_of(&body) };
            let ghost r0 = rule_views(out@);
            out.push(rule);
            assert(rule_views(out@) =~= r0.push((rule.selector@, rule.body@)));
        }
        i += 1;
    }
    assert(views(pieces@).subrange(0, i as int) =~= views(pieces@));
    out
}

/// Index of the first rule of `r` whose selector is `name`.
pub open spec fn first_with(r: Seq<(Seq<char>, Seq<char>)>, name: Seq<char>) -> Option<int> {
    if exists|i: int| 0 <= i < r.len() && (#[trigger] r[i]).0 == name {
        Some(
            choose|i: int|
                0 <= i < r.len() && (#[trigger] r[i]).0 == name && forall|j: int|
                    0 <= j < i ==> (#[trigger] r[j]).0 != name,
        )
    } else {
        None
    }
}

/// The selector that styles every module without a block of its own.
pub open spec fn wildcard() -> Seq<char> {
    seq!['*']
}

/// The rule that styles module `name`: its own block, or the `*` block when
/// it has none; `None` when neither exists.
pub open spec fn style_choice(r: Seq<(Seq<char>, Seq<char>)>, name: Seq<char>) -> Option<int> {
    if first_with(r, name) is None && first_with(r, wildcard()) is Some {
        first_with(r, wildcard())
    } else {
        first_with(r, name)
    }
}

fn find_rule(rules: &Vec<StyleRule>, name: &String) -> (r: Option<usize>)
    ensures
        r matches Some(i) ==> first_with(rule_views(rules@), name@) == Some(i as int),
        r is None ==> first_with(rule_views(rules@), name@) is None,
{
    let ghost rv = rule_views(rules@);
    let mut i: usize = 0;
    while i < rules.len()
        invariant
            i <= rules@.len(),
            rv == rule_views(rules@),
            forall|j: int| 0 <= j < i ==> (#[trigger] rv[j]).0 != name@,
        decreases rules@.len() - i,
    {
        assert(rv[i as int].0 == rules@[i as int].selector@);
        if rules[i].selector.eq(name) {
            proof {
                let k = choose|k: int|
                    0 <= k < rv.len() && (#[trigger] rv[k]).0 == name@ && forall|j: int|
                        0 <= j < k ==> (#[trigger] rv[j]).0 != name@;
                if k < i {
                } else if k > i {
                    assert(rv[i as int].0 == name@);
                }
            }
            return Some(i);
        }
        i += 1;
    }
    proof {
        if exists|k: int| 0 <= k < rv.len() && (#[trigger] rv[k]).0 == name@ {
            let k = choose|k: int| 0 <= k < rv.len() && (#[trigger] rv[k]).0 == name@;
            assert(rv[k].0 != name@);
        }
    }
    None
}

/// Chooses the rule that styles module `name`.
pub fn select_style(rules: &Vec<StyleRule>, name: &String) -> (r: Option<usize>)
    ensures
        r matches Some(i) ==> style_choice(rule_views(rules@), name@) == Some(i as int),
        r is None ==> style_choice(rule_views(rules@), name@) is None,
{
    let own = find_rule(rules, name);
    if own.is_none() {
        let star = string_of(&vec!['*']);
        assert(star@ == wildcard());
        let w = find_rule(rules, &star);
        if w.is_some() {
            return w;
        }
    }
    own
}

/// The declaration `name: value` of one piece of a body split at `;`.
pub open spec fn declaration_of(piece: Seq<char>) -> Option<(Seq<char>, Seq<char>)> {
    let n = before_char(piece, ':');
    if n.len() >= piece.len() {
        None
    } else {
        Some((trimmed(n), trimmed(piece.subrange(n.len() + 1int, piece.len() as int))))
    }
}

/// The value of the first declaration of `property` among the pieces `p`.
pub open spec fn value_in(p: Seq<Seq<char>>, property: Seq<char>) -> Option<Seq<char>>
    decreases p.len(),
{
    if p.len() == 0 {
        None
    } else {
        match declaration_of(p[0]) {
            Some(d) => if d.0 == property {
                Some(d.1)
            } else {
                value_in(p.drop_first(), property)
            },
            None => value_in(p.drop_first(), property),
        }
    }
}

/// The value declared for `property` in a rule body.
pub open spec fn property_of(body: Seq<char>, property: Seq<char>) -> Option<Seq<char>> {
    value_in(split_on(body, ';'), property)
}

/// Reads the value declared for `property` in a rule body.
pub fn property_value(body: &String, property: &String) -> (r: Option<String>)
    ensures
        r matches Some(v) ==> property_of(body@, property@) == Some(v@),
        r is None ==> property_of(body@, property@) is None,
{
    let pieces = split_chars(&chars_of(body.as_str()), ';');
    let prop = chars_of(property.as_str());
    let ghost pv = views(pieces@);
    let mut i: usize = 0;
    assert(pv.subrange(0, pv.len() as int) =~= pv);
    while i < pieces.len()
        invariant
            i <= pieces@.len(),
            pv == views(pieces@),
            pv == split_on(body@, ';'),
            prop@ == property@,
            property_of(body@, property@) == value_in(pv.subrange(i as int, pv.len() as int), property@),
        decreases pieces@.len() - i,
    {
        let piece = &pieces[i];
        let ghost rest = pv.subrange(i as int, pv.len() as int);
        assert(rest[0] == piece@);
        assert(rest.drop_first() =~= pv.subrange(i + 1, pv.len() as int));
        let n = cut_at(piece, ':');
        proof {
            lemma_before_char(piece@, ':');
        }
        if n.len() < piece.len() {
            let name = trim(&n);
            let name_s = string_of(&name);
            let prop_s = string_of(&prop);
            if name_s.eq(&prop_s) {
                let v = trim(&s_tail(piece, n.len() + 1));
                return Some(string_of(&v));
            }
        }
        i += 1;
    }
    None
}

} // verus!
