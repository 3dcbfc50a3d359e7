//! Properties of the library as a whole, proved over the specifications that
//! the functions' contracts use.

use vstd::prelude::*;
use crate::arg::{Arg, arg_text, spec_abs_trunc, spec_is_float, spec_is_numeric};
use crate::plural::{
    all_digits, digits_value, first_match, is_digit, plural_text, rule_matches, spec_rule, spec_selector,
    RuleModel, NONE, OP_ANY, OP_EXACT, OP_FLOAT, OP_MOD10, OP_MOD100,
};
use crate::store::{
    flatten_entries, full_key, insert_pairs, locale_of, spec_flatten, spec_lookup, FlatModel,
    TranslationsModel,
};
use crate::text::{index_of_from, is_ident, is_ident_char, lemma_index_of_from};
use crate::yaml::YamlValue;
use crate::template::{
    backslashes_before, first_open_from, is_open_at, part_text, render_parts, spec_compile_from, spec_template, unescape,
    PartModel, TemplateModel,
};

verus! {

/// A lookup finds the requested locale's template when that locale has the key.
pub proof fn law_lookup_prefers_requested_locale(
    t: TranslationsModel,
    locale: Seq<char>,
    key: Seq<char>,
)
    requires
        t.locales.contains_key(locale),
        t.locales[locale].contains_key(key),
    ensures
        spec_lookup(t, locale, key) == Some(t.locales[locale][key]),
{
}

/// When the requested locale lacks the key (or is not loaded at all), a lookup
/// finds the fallback locale's template.
pub proof fn law_lookup_falls_back(t: TranslationsModel, locale: Seq<char>, key: Seq<char>)
    requires
        !(t.locales.contains_key(locale) && t.locales[locale].contains_key(key)),
        t.locales.contains_key(t.fallback),
        t.locales[t.fallback].contains_key(key),
    ensures
        spec_lookup(t, locale, key) == Some(t.locales[t.fallback][key]),
{
}

/// A lookup finds nothing exactly when neither the requested locale nor the
/// fallback locale has the key.
pub proof fn law_lookup_missing(t: TranslationsModel, locale: Seq<char>, key: Seq<char>)
    ensures
        spec_lookup(t, locale, key) is None <==> !(t.locales.contains_key(locale)
            && t.locales[locale].contains_key(key)) && !(t.locales.contains_key(t.fallback)
            && t.locales[t.fallback].contains_key(key)),
{
}

/// After a locale is loaded, a lookup of any of its keys in that locale finds
/// the template it was loaded with.
pub proof fn law_loaded_translation_found(
    before: TranslationsModel,
    name: Seq<char>,
    pairs: Seq<(Seq<char>, Seq<PartModel>)>,
    key: Seq<char>,
)
    requires
        locale_of(pairs).contains_key(key),
    ensures
        spec_lookup(
            TranslationsModel {
                fallback: before.fallback,
                locales: before.locales.insert(name, locale_of(pairs)),
            },
            name,
            key,
        ) == Some(locale_of(pairs)[key]),
{
}

/// Plural rules see a number only through its truncated absolute value and
/// whether it was a float: two such arguments select the same rule.
pub proof fn law_selection_by_magnitude(rules: Seq<RuleModel>, a: Arg, b: Arg, from: int)
    requires
        spec_is_numeric(a),
        spec_is_numeric(b),
        spec_abs_trunc(a) == spec_abs_trunc(b),
        spec_is_float(a) == spec_is_float(b),
    ensures
        first_match(rules, a, from) == first_match(rules, b, from),
    decreases rules.len() - from,
{
    if from < rules.len() {
        assert(rule_matches(rules[from], a) == rule_matches(rules[from], b));
        law_selection_by_magnitude(rules, a, b, from + 1);
    }
}

/// The first rule that selects a number decides: a replacing rule's text
/// stands in place of the number.
pub proof fn law_replacing_rule(rules: Seq<RuleModel>, a: Arg)
    requires
        spec_is_numeric(a),
        first_match(rules, a, 0) < rules.len(),
        rules[first_match(rules, a, 0)].replace,
    ensures
        plural_text(rules, a) == rules[first_match(rules, a, 0)].text,
{
}

/// The first rule that selects a number decides: another rule's text follows
/// the number.
pub proof fn law_appending_rule(rules: Seq<RuleModel>, a: Arg)
    requires
        spec_is_numeric(a),
        first_match(rules, a, 0) < rules.len(),
        !rules[first_match(rules, a, 0)].replace,
    ensures
        plural_text(rules, a) == arg_text(a) + rules[first_match(rules, a, 0)].text,
{
}

/// A plural placeholder writes a text argument, or a number that no rule
/// selects, as is.
pub proof fn law_plural_unselected(rules: Seq<RuleModel>, a: Arg)
    requires
        !spec_is_numeric(a) || first_match(rules, a, 0) >= rules.len(),
    ensures
        plural_text(rules, a) == arg_text(a),
{
}

/// A float input matches only `.` and `~` selectors and rules without a selector.
pub proof fn law_float_selectors(r: RuleModel, a: Arg)
    requires
        spec_is_float(a),
        rule_matches(r, a),
    ensures
        r.op != OP_EXACT && r.op != OP_MOD10 && r.op != OP_MOD100,
{
}

/// The `.` selector matches exactly the float inputs, whatever their value.
pub proof fn law_dot_selector(r: RuleModel, a: Arg)
    requires
        r.op == OP_FLOAT,
    ensures
        rule_matches(r, a) == spec_is_float(a),
{
}

/// An open-ended range (`lo+`) of `=` or `~` matches every integer value from
/// `lo` up.
pub proof fn law_open_range(r: RuleModel, a: Arg)
    requires
        r.op == OP_EXACT || r.op == OP_ANY,
        r.hi == NONE,
        spec_is_numeric(a),
        !spec_is_float(a),
    ensures
        rule_matches(r, a) == (r.lo <= spec_abs_trunc(a)),
{
}

/// Rendering a template made of two parts lists renders each in turn.
pub proof fn lemma_render_parts_append(a: Seq<PartModel>, b: Seq<PartModel>, args: Seq<(&str, Arg)>)
    ensures
        render_parts(a + b, args) == render_parts(a, args) + render_parts(b, args),
    decreases b.len(),
{
    if b.len() == 0 {
        assert(a + b =~= a);
        assert(render_parts(a, args) + Seq::<char>::empty() =~= render_parts(a, args));
    } else {
        lemma_render_parts_append(a, b.drop_last(), args);
        assert((a + b).drop_last() =~= a + b.drop_last());
        assert((a + b).last() == b.last());
    }
}

/// Placeholders of the same name in a template all render the same text: the
/// first argument of that name.
pub proof fn law_same_name_same_text(
    name: Seq<char>,
    a: Seq<PartModel>,
    b: Seq<PartModel>,
    c: Seq<PartModel>,
    args: Seq<(&str, Arg)>,
)
    ensures
        ({
            let v = seq![PartModel::Variable(name)];
            let x = part_text(PartModel::Variable(name), args);
            render_parts(a + v + b + v + c, args) == render_parts(a, args) + x + render_parts(
                b,
                args,
            ) + x + render_parts(c, args)
        }),
{
    let v = seq![PartModel::Variable(name)];
    let x = part_text(PartModel::Variable(name), args);
    assert(v.drop_last() =~= Seq::<PartModel>::empty());
    assert(render_parts(v.drop_last(), args) == Seq::<char>::empty());
    assert(v.last() == PartModel::Variable(name));
    assert(render_parts(v, args) =~= Seq::<char>::empty() + x);
    assert(render_parts(v, args) =~= x);
    lemma_render_parts_append(a + v + b + v, c, args);
    lemma_render_parts_append(a + v + b, v, args);
    lemma_render_parts_append(a + v, b, args);
    lemma_render_parts_append(a, v, args);
    assert(render_parts(a + v + b + v + c, args) =~= render_parts(a, args) + x + render_parts(
        b,
        args,
    ) + x + render_parts(c, args));
}

/// Proof that a text without `{` has no placeholder opening at or after `i`.
proof fn lemma_no_open(s: Seq<char>, start: int, i: int)
    requires
        0 <= i <= s.len(),
        forall|k: int| 0 <= k < s.len() ==> s[k] != '{',
    ensures
        first_open_from(s, start, i) == s.len(),
    decreases s.len() - i,
{
    if i < s.len() {
        lemma_no_open(s, start, i + 1);
    }
}

/// Proof that unescaping leaves a text without `{` as it is.
proof fn lemma_unescape_plain(t: Seq<char>)
    requires
        forall|k: int| 0 <= k < t.len() ==> t[k] != '{',
    ensures
        unescape(t) == t,
    decreases t.len(),
{
    if t.len() >= 2 {
        let rest = t.skip(1);
        assert forall|k: int| 0 <= k < rest.len() implies rest[k] != '{' by {
            assert(rest[k] == t[k + 1]);
        }
        lemma_unescape_plain(rest);
        assert(seq![t[0]] + rest =~= t);
    }
}

/// A translation without any `{` compiles to one text part, itself, and
/// renders to itself whatever the arguments.
pub proof fn law_plain_text_verbatim(s: Seq<char>, args: Seq<(&str, Arg)>)
    requires
        s.len() > 0,
        forall|k: int| 0 <= k < s.len() ==> s[k] != '{',
    ensures
        spec_template(s) == TemplateModel::Done(seq![PartModel::Text(s)]),
        render_parts(seq![PartModel::Text(s)], args) == s,
{
    lemma_no_open(s, 0, 0);
    assert(s.subrange(0, s.len() as int) =~= s);
    lemma_unescape_plain(s);
    assert(spec_compile_from(s, s.len() as int) == TemplateModel::Done(seq![]));
    assert(seq![PartModel::Text(s)] + Seq::<PartModel>::empty() =~= seq![PartModel::Text(s)]);
    let ps = seq![PartModel::Text(s)];
    assert(ps.drop_last() =~= Seq::<PartModel>::empty());
    assert(render_parts(ps.drop_last(), args) == Seq::<char>::empty());
    assert(Seq::<char>::empty() + s =~= s);
}

/// A `%` rule with an open range `lo+` selects an integer exactly when the last
/// decimal digit of its truncated absolute value is at least `lo`; a `#` rule,
/// when its last two digits are.
pub proof fn law_modulo_open_range(r: RuleModel, a: Arg)
    requires
        r.op == OP_MOD10 || r.op == OP_MOD100,
        r.hi == NONE,
        spec_is_numeric(a),
        !spec_is_float(a),
    ensures
        r.op == OP_MOD10 ==> (rule_matches(r, a) <==> r.lo <= spec_abs_trunc(a) % 10),
        r.op == OP_MOD100 ==> (rule_matches(r, a) <==> r.lo <= spec_abs_trunc(a) % 100),
{
}

/// A closed range `lo-hi` (or a single `n`, which is `n-n`) selects an integer
/// exactly when the compared value lies between the bounds: the truncated
/// absolute value for `=` and `~`, its value modulo 10 for `%`, modulo 100 for
/// `#`. A `~` range compares a float input's truncated absolute value too.
pub proof fn law_closed_range(r: RuleModel, a: Arg)
    requires
        r.hi != NONE,
        spec_is_numeric(a),
    ensures
        r.op == OP_EXACT && !spec_is_float(a) ==> (rule_matches(r, a) <==> r.lo
            <= spec_abs_trunc(a) <= r.hi),
        r.op == OP_ANY ==> (rule_matches(r, a) <==> r.lo <= spec_abs_trunc(a) <= r.hi),
        r.op == OP_MOD10 && !spec_is_float(a) ==> (rule_matches(r, a) <==> r.lo
            <= spec_abs_trunc(a) % 10 <= r.hi),
        r.op == OP_MOD100 && !spec_is_float(a) ==> (rule_matches(r, a) <==> r.lo
            <= spec_abs_trunc(a) % 100 <= r.hi),
{
}

/// A rule piece without `:` has no selector, so its rule selects every number.
/// Its text is the piece; one that starts with `=` is a replacing rule whose
/// text is what follows the `=`.
pub proof fn law_rule_without_selector(p: Seq<char>)
    requires
        forall|k: int| 0 <= k < p.len() ==> p[k] != ':',
    ensures
        spec_rule(p) is Some,
        spec_rule(p)->0.op == NONE,
        p.len() > 0 && p[0] == '=' ==> spec_rule(p)->0.replace && spec_rule(p)->0.text == p.skip(
            1,
        ),
        !(p.len() > 0 && p[0] == '=') ==> !spec_rule(p)->0.replace && spec_rule(p)->0.text == p,
{
    lemma_index_of_from(p, ':', 0);
}

/// A rule piece `sel:t` (the selector `sel` without `:`) compiles exactly when
/// its selector does, to that selector's operator and bounds. Its text is `t`;
/// a `t` that starts with `=` makes a replacing rule whose text is what follows
/// the `=`.
pub proof fn law_rule_with_selector(sel: Seq<char>, t: Seq<char>)
    requires
        forall|k: int| 0 <= k < sel.len() ==> sel[k] != ':',
    ensures
        spec_rule(sel + seq![':'] + t) is None <==> spec_selector(sel) is None,
        spec_selector(sel) is Some ==> ({
            let r = spec_rule(sel + seq![':'] + t)->0;
            let (op, lo, hi) = spec_selector(sel)->0;
            &&& r.op == op
            &&& r.lo == lo
            &&& r.hi == hi
            &&& t.len() > 0 && t[0] == '=' ==> r.replace && r.text == t.skip(1)
            &&& !(t.len() > 0 && t[0] == '=') ==> !r.replace && r.text == t
        }),
{
    let p = sel + seq![':'] + t;
    let n = sel.len() as int;
    lemma_index_of_from(p, ':', 0);
    assert(p[n] == ':');
    assert forall|k: int| 0 <= k < n implies p[k] != ':' by {
        assert(p[k] == sel[k]);
    }
    assert(index_of_from(p, ':', 0) == n);
    assert(p.take(n) =~= sel);
    assert(p.skip(n + 1) =~= t);
}

/// The characters allowed in a placeholder name are `_`, the ASCII digits and
/// the ASCII letters, every one of them.
pub proof fn law_identifier_chars(c: char)
    ensures
        is_ident_char(c) <==> (c == '_' || (48 <= (c as u32) <= 57) || (65 <= (c as u32) <= 90)
            || (97 <= (c as u32) <= 122)),
{
}

/// A translation that is one placeholder whose name is made of `_`, ASCII
/// digits and ASCII letters compiles to one regular placeholder of that name.
pub proof fn law_named_placeholder(name: Seq<char>)
    requires
        forall|k: int|
            0 <= k < name.len() ==> (name[k] == '_' || (48 <= (name[k] as u32) <= 57) || (65 <= (
            name[k] as u32) <= 90) || (97 <= (name[k] as u32) <= 122)),
    ensures
        spec_template(seq!['{'] + name + seq!['}']) == TemplateModel::Done(
            seq![PartModel::Variable(name)],
        ),
{
    let s = seq!['{'] + name + seq!['}'];
    let n = name.len() as int;
    assert forall|k: int| 0 <= k < n implies #[trigger] is_ident_char(name[k]) by {
        law_identifier_chars(name[k]);
    }
    assert(is_ident(name));
    assert(first_open_from(s, 0, 0) == 0);
    lemma_index_of_from(s, '}', 1);
    assert(s[n + 1] == '}');
    assert forall|k: int| 1 <= k < n + 1 implies s[k] != '}' by {
        assert(s[k] == name[k - 1]);
        law_identifier_chars(name[k - 1]);
    }
    assert(index_of_from(s, '}', 1) == n + 1);
    assert(s.subrange(1, n + 1) =~= name);
    assert(spec_compile_from(s, n + 2) == TemplateModel::Done(seq![]));
    assert(seq![PartModel::Variable(name)] + Seq::<PartModel>::empty() =~= seq![
        PartModel::Variable(name),
    ]);
}


/// Unescaping a text without `\` followed by anything keeps that text and
/// unescapes the rest.
pub proof fn lemma_unescape_plain_prefix(x: Seq<char>, y: Seq<char>)
    requires
        forall|k: int| 0 <= k < x.len() ==> x[k] != '\\',
    ensures
        unescape(x + y) == x + unescape(y),
    decreases x.len(),
{
    if x.len() == 0 {
        assert(x + y =~= y);
        assert(x + unescape(y) =~= unescape(y));
    } else if (x + y).len() < 2 {
        assert(y.len() == 0);
        assert(x + y =~= x);
        assert(x + unescape(y) =~= x);
    } else {
        let rest = x.skip(1);
        assert forall|k: int| 0 <= k < rest.len() implies rest[k] != '\\' by {
            assert(rest[k] == x[k + 1]);
        }
        lemma_unescape_plain_prefix(rest, y);
        assert((x + y).skip(1) =~= rest + y);
        assert((x + y)[0] == x[0]);
        assert(seq![x[0]] + (rest + unescape(y)) =~= x + unescape(y));
    }
}

/// Unescaping is compositional: in a text made of a part `x` without `\`, an
/// escaped brace `\{` and a rest `y`, the part stays, the escaped brace becomes
/// `{`, and the rest is unescaped in turn.
pub proof fn law_unescape_escaped_brace(x: Seq<char>, y: Seq<char>)
    requires
        forall|k: int| 0 <= k < x.len() ==> x[k] != '\\',
    ensures
        unescape(x + seq!['\\', '{'] + y) == x + seq!['{'] + unescape(y),
{
    let e = seq!['\\', '{'] + y;
    assert(x + seq!['\\', '{'] + y =~= x + e);
    lemma_unescape_plain_prefix(x, e);
    assert(e.skip(2) =~= y);
    assert(unescape(e) == seq!['{'] + unescape(y));
    assert(x + (seq!['{'] + unescape(y)) =~= x + seq!['{'] + unescape(y));
}

/// The pieces `xs` joined with `sep` between each two of them.
pub open spec fn joined(xs: Seq<Seq<char>>, sep: Seq<char>) -> Seq<char>
    decreases xs.len(),
{
    if xs.len() == 0 {
        seq![]
    } else if xs.len() == 1 {
        xs[0]
    } else {
        xs[0] + sep + joined(xs.skip(1), sep)
    }
}

/// In a text made of pieces without `\` joined by escaped braces `\{`, every
/// escaped brace becomes `{` and nothing else changes.
pub proof fn law_unescape_all_braces(xs: Seq<Seq<char>>)
    requires
        forall|i: int, k: int| 0 <= i < xs.len() && 0 <= k < xs[i].len() ==> #[trigger] xs[i][k]
            != '\\',
    ensures
        unescape(joined(xs, seq!['\\', '{'])) == joined(xs, seq!['{']),
    decreases xs.len(),
{
    if xs.len() == 0 {
    } else if xs.len() == 1 {
        lemma_unescape_plain_prefix(xs[0], seq![]);
        assert(xs[0] + Seq::<char>::empty() =~= xs[0]);
    } else {
        let rest = xs.skip(1);
        assert forall|i: int, k: int| 0 <= i < rest.len() && 0 <= k < rest[i].len() implies
            #[trigger] rest[i][k] != '\\' by {
            assert(rest[i] == xs[i + 1]);
            assert(xs[i + 1][k] != '\\');
        }
        law_unescape_all_braces(rest);
        law_unescape_escaped_brace(xs[0], joined(rest, seq!['\\', '{']));
    }
}

/// The dotted key of the value reached from `v` by taking, at each level, the
/// mapping entry at the next position of `route`, when that value is a string
/// (a leaf of the file); `None` where the route leaves the tree, meets a key
/// that is not a string, or ends on anything but a string.
pub open spec fn leaf_key(v: YamlValue, route: Seq<int>, prefix: Seq<char>) -> Option<Seq<char>>
    decreases route.len(),
{
    if route.len() == 0 {
        if v is String {
            Some(prefix)
        } else {
            None
        }
    } else {
        match v {
            YamlValue::Mapping(es) => {
                let i = route[0];
                if 0 <= i < es@.len() {
                    match es@[i].0 {
                        Some(k) => leaf_key(es@[i].1, route.skip(1), full_key(prefix, k@)),
                        None => None,
                    }
                } else {
                    None
                }
            },
            _ => None,
        }
    }
}

/// Proof that when mapping entries `es[i..]` flatten, each entry from `i` on has
/// a string key, flattens under its dotted key, and all it gives is in the result.
proof fn lemma_entries_member(
    path: Seq<char>,
    es: Seq<(Option<String>, YamlValue)>,
    i: int,
    prefix: Seq<char>,
    j: int,
    ps: Seq<(Seq<char>, Seq<PartModel>)>,
)
    requires
        0 <= i <= j < es.len(),
        flatten_entries(path, es, i, prefix) == FlatModel::Done(ps),
    ensures
        es[j].0 is Some,
        match spec_flatten(path, es[j].1, full_key(prefix, es[j].0->0@)) {
            FlatModel::Done(a) => forall|t: int| 0 <= t < a.len() ==> ps.contains(#[trigger] a[t]),
            _ => false,
        },
    decreases j - i,
{
    let k = es[i].0->0;
    match spec_flatten(path, es[i].1, full_key(prefix, k@)) {
        FlatModel::Done(a) => {
            match flatten_entries(path, es, i + 1, prefix) {
                FlatModel::Done(rest) => {
                    assert(ps == a + rest);
                    if j == i {
                        assert forall|t: int| 0 <= t < a.len() implies ps.contains(
                            #[trigger] a[t],
                        ) by {
                            assert(ps[t] == a[t]);
                        }
                    } else {
                        lemma_entries_member(path, es, i + 1, prefix, j, rest);
                        match spec_flatten(path, es[j].1, full_key(prefix, es[j].0->0@)) {
                            FlatModel::Done(b) => {
                                assert forall|t: int| 0 <= t < b.len() implies ps.contains(
                                    #[trigger] b[t],
                                ) by {
                                    assert(rest.contains(b[t]));
                                    let u = choose|u: int| 0 <= u < rest.len() && rest[u] == b[t];
                                    assert(ps[a.len() + u] == b[t]);
                                }
                            },
                            _ => {},
                        }
                    }
                },
                _ => {},
            }
        },
        _ => {},
    }
}

/// Proof that the flattening of a tree holds a pair for every leaf key of it.
proof fn lemma_leaf_flattened(
    path: Seq<char>,
    v: YamlValue,
    route: Seq<int>,
    prefix: Seq<char>,
    ps: Seq<(Seq<char>, Seq<PartModel>)>,
)
    requires
        spec_flatten(path, v, prefix) == FlatModel::Done(ps),
        leaf_key(v, route, prefix) is Some,
    ensures
        exists|t: int| 0 <= t < ps.len() && (#[trigger] ps[t]).0 == leaf_key(v, route, prefix)->0,
    decreases route.len(),
{
    if route.len() == 0 {
        assert(ps[0].0 == prefix);
    } else {
        match v {
            YamlValue::Mapping(es) => {
                let i = route[0];
                let k = es@[i].0->0;
                let child = es@[i].1;
                lemma_entries_member(path, es@, 0, prefix, i, ps);
                match spec_flatten(path, child, full_key(prefix, k@)) {
                    FlatModel::Done(a) => {
                        lemma_leaf_flattened(path, child, route.skip(1), full_key(prefix, k@), a);
                        let t = choose|t: int|
                            0 <= t < a.len() && (#[trigger] a[t]).0 == leaf_key(
                                child,
                                route.skip(1),
                                full_key(prefix, k@),
                            )->0;
                        assert(ps.contains(a[t]));
                        let u = choose|u: int| 0 <= u < ps.len() && ps[u] == a[t];
                        assert(ps[u].0 == leaf_key(v, route, prefix)->0);
                    },
                    _ => {},
                }
            },
            _ => {},
        }
    }
}

/// Proof that inserting pairs gives a map that has the key of each of them.
proof fn lemma_insert_pairs_has_key(
    m: Map<Seq<char>, Seq<PartModel>>,
    ps: Seq<(Seq<char>, Seq<PartModel>)>,
    t: int,
)
    requires
        0 <= t < ps.len(),
    ensures
        insert_pairs(m, ps).contains_key(ps[t].0),
    decreases ps.len(),
{
    if t < ps.len() - 1 {
        lemma_insert_pairs_has_key(m, ps.drop_last(), t);
    }
}

/// Flattening loads every leaf: when a translation tree flattens, the dotted key
/// of each string value in it, at any depth and whatever its siblings, is a key
/// of the loaded locale, and a lookup of it in that locale finds a template.
pub proof fn law_every_leaf_loaded(
    path: Seq<char>,
    v: YamlValue,
    route: Seq<int>,
    ps: Seq<(Seq<char>, Seq<PartModel>)>,
    before: TranslationsModel,
    name: Seq<char>,
)
    requires
        spec_flatten(path, v, seq![]) == FlatModel::Done(ps),
        leaf_key(v, route, seq![]) is Some,
    ensures
        locale_of(ps).contains_key(leaf_key(v, route, seq![])->0),
        spec_lookup(
            TranslationsModel {
                fallback: before.fallback,
                locales: before.locales.insert(name, locale_of(ps)),
            },
            name,
            leaf_key(v, route, seq![])->0,
        ) is Some,
{
    lemma_leaf_flattened(path, v, route, seq![], ps);
    let t = choose|t: int| 0 <= t < ps.len() && (#[trigger] ps[t]).0 == leaf_key(v, route, seq![])->0;
    lemma_insert_pairs_has_key(Map::empty(), ps, t);
}

/// A `~` rule compares any number, float inputs included, by its truncated
/// absolute value: an open range `lo+` selects exactly the values from `lo` up.
pub proof fn law_tilde_open_range(r: RuleModel, a: Arg)
    requires
        r.op == OP_ANY,
        r.hi == NONE,
        spec_is_numeric(a),
    ensures
        rule_matches(r, a) <==> r.lo <= spec_abs_trunc(a),
{
}

/// A rule whose operator is none of `.`, `=`, `~`, `%` and `#` (a rule written
/// without a selector among them) selects every number.
pub proof fn law_no_selector_selects_all(r: RuleModel, a: Arg)
    requires
        r.op != OP_FLOAT,
        r.op != OP_EXACT,
        r.op != OP_ANY,
        r.op != OP_MOD10,
        r.op != OP_MOD100,
        spec_is_numeric(a),
    ensures
        rule_matches(r, a),
{
}

/// The rule that decides is the first one that selects the number: every rule
/// before it does not, and it does (where there is one).
pub proof fn law_first_rule_wins(rules: Seq<RuleModel>, a: Arg, from: int)
    requires
        0 <= from <= rules.len(),
    ensures
        from <= first_match(rules, a, from) <= rules.len(),
        forall|j: int| from <= j < first_match(rules, a, from) ==> !rule_matches(#[trigger] rules[j], a),
        first_match(rules, a, from) < rules.len() ==> rule_matches(rules[first_match(rules, a, from)], a),
    decreases rules.len() - from,
{
    if from < rules.len() && !rule_matches(rules[from], a) {
        law_first_rule_wins(rules, a, from + 1);
    }
}

/// The three forms of a selector after its operator character `c`: `d+` is
/// the open range from `d`, `d-e` the range from `d` to `e`, and `d` alone the
/// single value `d`, for decimal numbers `d` and `e` of at most 255.
pub proof fn law_selector_forms(c: char, d: Seq<char>, e: Seq<char>)
    requires
        (c as u32) < 128,
        d.len() > 0,
        all_digits(d),
        digits_value(d) <= 255,
        e.len() > 0,
        all_digits(e),
        digits_value(e) <= 255,
    ensures
        spec_selector(seq![c] + d + seq!['+']) == Some(
            ((c as u32) as u8, digits_value(d) as u8, NONE),
        ),
        spec_selector(seq![c] + d + seq!['-'] + e) == Some(
            ((c as u32) as u8, digits_value(d) as u8, digits_value(e) as u8),
        ),
        spec_selector(seq![c] + d) == Some(
            ((c as u32) as u8, digits_value(d) as u8, digits_value(d) as u8),
        ),
{
    assert(is_digit(d[0]));
    assert(is_digit(e[0]));
    assert(is_digit(d.last()));
    assert(is_digit(e.last()));
    // `d+`
    let s1 = seq![c] + d + seq!['+'];
    assert(s1.skip(1) =~= d + seq!['+']);
    assert((d + seq!['+']).drop_last() =~= d);
    // `d-e`
    let s2 = seq![c] + d + seq!['-'] + e;
    let r2 = d + seq!['-'] + e;
    assert(s2.skip(1) =~= r2);
    assert(r2.last() == e.last());
    lemma_index_of_from(r2, '-', 0);
    assert(r2[d.len() as int] == '-');
    assert forall|k: int| 0 <= k < d.len() implies r2[k] != '-' by {
        assert(r2[k] == d[k]);
        assert(is_digit(d[k]));
    }
    assert(index_of_from(r2, '-', 0) == d.len());
    assert(r2.take(d.len() as int) =~= d);
    assert(r2.skip(d.len() as int + 1) =~= e);
    // `d`
    let s3 = seq![c] + d;
    assert(s3.skip(1) =~= d);
    lemma_index_of_from(d, '-', 0);
    if index_of_from(d, '-', 0) < d.len() {
        assert(is_digit(d[index_of_from(d, '-', 0)]));
    }
}


/// A `{` opens a placeholder unless an odd number of backslashes precede it:
/// with none it opens, after `\` it is a literal brace, and after `\\` (an
/// escaped backslash) it opens again.
pub proof fn law_brace_escaping(s: Seq<char>, start: int, i: int)
    requires
        0 <= start <= i < s.len(),
        s[i] == '{',
    ensures
        i == start || s[i - 1] != '\\' ==> is_open_at(s, start, i),
        start + 1 <= i && s[i - 1] == '\\' && (i - 1 == start || s[i - 2] != '\\') ==> !is_open_at(
            s,
            start,
            i,
        ),
        start + 2 <= i && s[i - 1] == '\\' && s[i - 2] == '\\' && (i - 2 == start || s[i - 3]
            != '\\') ==> is_open_at(s, start, i),
{
    if start + 1 <= i && s[i - 1] == '\\' {
        assert(backslashes_before(s, start, i) == 1 + backslashes_before(s, start, i - 1));
        if start + 2 <= i && s[i - 2] == '\\' {
            assert(backslashes_before(s, start, i - 1) == 1 + backslashes_before(s, start, i - 2));
        }
    }
}

} // verus!
