//! What the configuration and the settings come to.

use vstd::prelude::*;
use vstd::string::*;

use crate::config::{below_home, color_in, picked, BubbleTheme, BubbleThemeConfig, Rgb};
use crate::gui::menu::{pick_of, Pick};
use crate::gui::settings::{
    args_of, arranged, declared, declared_in, edited, given, inserted, label_for, listed_name, part, pressed,
    shown_args, with_declared, Edit, Press, SettingModel,
};
use crate::json::JsonModel;
use crate::ordmap::text_lt;
use crate::text::{cut_first, decimal, has_prefix, trim_front, trimmed};

verus! {

/// The value of a hexadecimal digit.
pub open spec fn hex_worth(c: char) -> int {
    if 48 <= c as u32 <= 57 {
        c as u32 - 48
    } else if 97 <= c as u32 <= 102 {
        c as u32 - 97 + 10
    } else {
        c as u32 - 65 + 10
    }
}

/// A hexadecimal digit.
pub open spec fn is_hex(c: char) -> bool {
    48 <= c as u32 <= 57 || 97 <= c as u32 <= 102 || 65 <= c as u32 <= 70
}

/// A color is six hexadecimal digits, two for each channel, with one sign before
/// them or none; anything else is none.
pub proof fn law_colors(d: Seq<char>, s: Seq<char>)
    ensures
        d.len() == 6 && (forall|i: int| 0 <= i < 6 ==> is_hex(#[trigger] d[i])) ==> ({
            let c = Some(
                (
                    (16 * hex_worth(d[0]) + hex_worth(d[1])) as u8,
                    (16 * hex_worth(d[2]) + hex_worth(d[3])) as u8,
                    (16 * hex_worth(d[4]) + hex_worth(d[5])) as u8,
                ),
            );
            color_in(d) == c && color_in(seq!['#'] + d) == c && color_in(seq!['#', '#'] + d) is None
        }),
        color_in(s) matches Some(_) ==> 6 <= trimmed(s).len() <= 7,
        (exists|i: int| 1 <= i < trimmed(s).len() && !is_hex(#[trigger] trimmed(s)[i])) ==> color_in(s) is None,
{
    reveal_strlit("#");
    if d.len() == 6 && (forall|i: int| 0 <= i < 6 ==> is_hex(#[trigger] d[i])) {
        let e = seq!['#'] + d;
        let f = seq!['#', '#'] + d;
        assert(is_hex(d[0]) && is_hex(d[1]) && is_hex(d[2]) && is_hex(d[3]) && is_hex(d[4]) && is_hex(d[5]));
        crate::text::lemma_trimmed_stays(d);
        assert(e.last() == d[5] && f.last() == d[5]);
        assert(e[0] == '#' && f[0] == '#' && f[1] == '#');
        crate::text::lemma_trimmed_stays(e);
        crate::text::lemma_trimmed_stays(f);
        assert(e.take(1) =~= "#"@);
        assert(e.skip(1) =~= d);
        assert(f.take(1) =~= "#"@);
        assert(!has_prefix(d, "#"@)) by {
            if has_prefix(d, "#"@) {
                assert(d.take(1)[0] == "#"@[0]);
            }
        }
        assert(f.skip(1).len() == 7);
        assert(crate::text::all_hex(d)) by {
            assert forall|i: int| 0 <= i < d.len() implies crate::text::hex_digit(#[trigger] d[i]) is Some by {
                assert(is_hex(d[i]));
            }
        }
    }
    let t = trimmed(s);
    if exists|i: int| 1 <= i < t.len() && !is_hex(#[trigger] t[i]) {
        let i = choose|i: int| 1 <= i < t.len() && !is_hex(#[trigger] t[i]);
        let u = crate::config::without_hash(t);
        let j = if u.len() == t.len() { i } else { i - 1 };
        if u.len() == t.len() {
            assert(u[i] == t[i]);
        } else {
            assert(u =~= t.skip(1));
            assert(u[i - 1] == t[i]);
        }
        assert(!is_hex(u[j]));
        assert(crate::text::hex_digit(u[j]) is None);
    }
}

/// A color that was chosen is taken where it is one, and the preset is taken
/// where it is not, or where none was chosen.
pub proof fn law_chosen_colors(s: Seq<char>, preset: Rgb)
    ensures
        picked(None, preset) == preset,
        color_in(s) is None ==> picked(Some(s), preset) == preset,
        color_in(s) matches Some(c) ==> picked(Some(s), preset) == (Rgb { r: c.0, g: c.1, b: c.2 }),
{
}

/// Without any choices the look is the preset: white and nearly clear, or dark.
pub proof fn law_presets(t: BubbleTheme, cfg: BubbleThemeConfig)
    requires
        t.follows(cfg),
        cfg.fill is None && cfg.fill_alpha is None && cfg.border is None && cfg.border_alpha is None,
        cfg.divider is None && cfg.divider_alpha is None && cfg.title is None && cfg.from is None,
        cfg.shadow_alpha is None && cfg.radius is None && cfg.state_colors is None,
    ensures
        t.dark == cfg.dark && t.acrylic == cfg.acrylic && t.radius == 12 && t.border_alpha == 190,
        !cfg.dark ==> t.fill == (Rgb { r: 255, g: 255, b: 255 }) && t.fill_alpha == 80 && t.title == (Rgb {
            r: 0x26,
            g: 0x26,
            b: 0x26,
        }) && t.state@[0] == (Rgb { r: 0x7F, g: 0xB4, b: 0xEF }) && t.state@[3] == (Rgb {
            r: 0xE0,
            g: 0x5B,
            b: 0x4C,
        }),
        cfg.dark ==> t.fill == (Rgb { r: 28, g: 30, b: 34 }) && t.fill_alpha == 170 && t.title == (Rgb {
            r: 0xE6,
            g: 0xE8,
            b: 0xEC,
        }) && t.state@[0] == (Rgb { r: 0x9D, g: 0xC3, b: 0xF2 }) && t.state@[3] == (Rgb {
            r: 0xF0,
            g: 0x6A,
            b: 0x5A,
        }),
{
}

/// Each choice changes what it is for.
pub proof fn law_choices_count(t: BubbleTheme, cfg: BubbleThemeConfig)
    requires
        t.follows(cfg),
    ensures
        cfg.fill matches Some(s) ==> (color_in(s@) matches Some(c) ==> t.fill == (Rgb { r: c.0, g: c.1, b: c.2 })),
        cfg.border matches Some(s) ==> (color_in(s@) matches Some(c) ==> t.border == (Rgb { r: c.0, g: c.1, b: c.2 })),
        cfg.divider matches Some(s) ==> (color_in(s@) matches Some(c) ==> t.divider == (Rgb { r: c.0, g: c.1, b: c.2 })),
        cfg.title matches Some(s) ==> (color_in(s@) matches Some(c) ==> t.title == (Rgb { r: c.0, g: c.1, b: c.2 })),
        cfg.from matches Some(s) ==> (color_in(s@) matches Some(c) ==> t.from == (Rgb { r: c.0, g: c.1, b: c.2 })),
        cfg.fill_alpha matches Some(a) ==> t.fill_alpha == a,
        cfg.border_alpha matches Some(a) ==> t.border_alpha == a,
        cfg.divider_alpha matches Some(a) ==> t.divider_alpha == a,
        cfg.shadow_alpha matches Some(a) ==> t.shadow_alpha == a,
        cfg.radius matches Some(r) ==> t.radius == r,
        cfg.state_colors matches Some(c) ==> (color_in(c.thinking@) matches Some(x) ==> t.state@[0] == (Rgb {
            r: x.0,
            g: x.1,
            b: x.2,
        })),
        cfg.state_colors matches Some(c) ==> (color_in(c.working@) matches Some(x) ==> t.state@[1] == (Rgb {
            r: x.0,
            g: x.1,
            b: x.2,
        })),
        cfg.state_colors matches Some(c) ==> (color_in(c.done@) matches Some(x) ==> t.state@[2] == (Rgb {
            r: x.0,
            g: x.1,
            b: x.2,
        })),
        cfg.state_colors matches Some(c) ==> (color_in(c.fail@) matches Some(x) ==> t.state@[3] == (Rgb {
            r: x.0,
            g: x.1,
            b: x.2,
        })),
        cfg.state_colors matches Some(c) ==> (color_in(c.attention@) matches Some(x) ==> t.state@[4] == (Rgb {
            r: x.0,
            g: x.1,
            b: x.2,
        })),
        cfg.state_colors matches Some(c) ==> (color_in(c.neutral@) matches Some(x) ==> t.state@[5] == (Rgb {
            r: x.0,
            g: x.1,
            b: x.2,
        })),
{
    if cfg.state_colors is Some {
        let c = cfg.state_colors->0;
        let s = t.state@;
        let x = c.texts();
        assert(x[0] == c.thinking@ && x[1] == c.working@ && x[2] == c.done@ && x[3] == c.fail@);
        assert(x[4] == c.attention@ && x[5] == c.neutral@);
        assert(s[0] == s[0] && s[1] == s[1] && s[2] == s[2] && s[3] == s[3] && s[4] == s[4] && s[5] == s[5]);
    }
}

/// A path below the home begins with a tilde and a separator of either kind.
pub proof fn law_home(rest: Seq<char>, p: Seq<char>)
    ensures
        below_home(seq!['~', '/'] + rest) == Some(rest),
        below_home(seq!['~', '\\'] + rest) == Some(rest),
        p.len() < 2 || p[0] != '~' ==> below_home(p) is None,
{
    reveal_strlit("~/");
    reveal_strlit("~\\");
    let a = seq!['~', '/'] + rest;
    let b = seq!['~', '\\'] + rest;
    assert(a.take(2) =~= "~/"@);
    assert(a.skip(2) =~= rest);
    assert(b.take(2) =~= "~\\"@);
    assert(b.skip(2) =~= rest);
    assert(b.take(2)[1] != "~/"@[1]);
    if p.len() >= 2 && p[0] != '~' {
        assert(p.take(2)[0] != "~/"@[0]);
        assert(p.take(2)[0] != "~\\"@[0]);
    }
}

/// A declaration names a key, a label and a value with bars between them, behind
/// its mark; without a label the key stands for it, and without a value it is
/// empty. A line without the mark, or without a key, declares nothing.
pub proof fn law_declarations(line: Seq<char>, k: Seq<char>, l: Seq<char>, v: Seq<char>)
    requires
        !k.contains('|'),
        !l.contains('|'),
        !v.contains('|'),
    ensures
        ({
            let mark = "--[hannis:set]"@;
            let key = trimmed(k);
            let label = if trimmed(l).len() > 0 { trimmed(l) } else { key };
            &&& key.len() > 0 ==> declared_in(mark + (k.push('|') + (l.push('|') + v))) == Some(
                SettingModel { key, label, value: trimmed(v) },
            )
            &&& key.len() > 0 ==> declared_in(mark + (k.push('|') + l)) == Some(
                SettingModel { key, label, value: Seq::empty() },
            )
            &&& key.len() > 0 ==> declared_in(mark + k) == Some(
                SettingModel { key, label: key, value: Seq::empty() },
            )
            &&& key.len() == 0 ==> declared_in(mark + (k.push('|') + (l.push('|') + v))) is None
            &&& !has_prefix(trim_front(line), mark) ==> declared_in(line) is None
        }),
{
    let mark = "--[hannis:set]"@;
    reveal_strlit("--[hannis:set]");
    let a = k.push('|') + (l.push('|') + v);
    let b = l.push('|') + v;
    let c = k.push('|') + l;
    lemma_bar(k, b);
    lemma_bar(l, v);
    lemma_bar(k, l);
    lemma_no_bar(k);
    lemma_no_bar(l);
    lemma_no_bar(v);
    lemma_marked(mark, a);
    lemma_marked(mark, c);
    lemma_marked(mark, k);
    assert(part(a, 0) == Some(trimmed(k)));
    assert(part(b, 0) == Some(trimmed(l)));
    assert(part(v, 0) == Some(trimmed(v)));
    assert(part(l, 0) == Some(trimmed(l)));
    assert(part(b, 1) == part(v, 0));
    assert(part(a, 1) == part(b, 0));
    assert(part(a, 2) == part(b, 1));
    assert(part(c, 0) == Some(trimmed(k)));
    assert(part(c, 1) == part(l, 0));
    assert(part(l, 1) is None);
    assert(part(c, 2) == part(l, 1));
    assert(part(k, 0) == Some(trimmed(k)));
    assert(part(k, 1) is None);
    assert(part(k, 2) is None);
}

proof fn lemma_marked(mark: Seq<char>, s: Seq<char>)
    requires
        mark.len() > 0,
        mark == "--[hannis:set]"@,
    ensures
        crate::text::after_prefix(trim_front(mark + s), mark) == Some(s),
{
    reveal_strlit("--[hannis:set]");
    assert((mark + s)[0] == '-');
    assert((mark + s).take(mark.len() as int) =~= mark);
    assert((mark + s).skip(mark.len() as int) =~= s);
}

proof fn lemma_bar(a: Seq<char>, b: Seq<char>)
    requires
        !a.contains('|'),
    ensures
        cut_first(a.push('|') + b, '|') == Some((a, b)),
{
    let s = a.push('|') + b;
    assert forall|i: int| 0 <= i < a.len() implies s[i] != '|' by {
        assert(s[i] == a[i]);
        assert(a.contains(a[i]));
    }
    assert(s[a.len() as int] == '|');
    crate::text::lemma_first_at(s, '|', a.len() as int);
    assert(s.take(a.len() as int) =~= a);
    assert(s.skip(a.len() as int + 1) =~= b);
}

proof fn lemma_no_bar(a: Seq<char>)
    requires
        !a.contains('|'),
    ensures
        cut_first(a, '|') is None,
{
    crate::text_laws::law_cut_first(a, '|');
}

/// The declarations of some lines come in the order of the lines.
pub proof fn law_declared_in_order(a: Seq<Seq<char>>, line: Seq<char>)
    ensures
        declared(Seq::empty()) == Seq::<SettingModel>::empty(),
        declared_in(line) is None ==> declared(a.push(line)) == declared(a),
        declared_in(line) matches Some(s) ==> declared(a.push(line)) == declared(a).push(s),
{
    assert(a.push(line).drop_last() =~= a);
}

proof fn lemma_with_declared(v: Seq<SettingModel>, decl: Seq<SettingModel>, all: Seq<SettingModel>)
    ensures
        ({
            let w = with_declared(v, decl, all);
            &&& w.len() >= v.len()
            &&& w.take(v.len() as int) == v
            &&& forall|i: int| 0 <= i < decl.len() ==> crate::gui::settings::has_key(w, (#[trigger] decl[i]).key)
            &&& forall|i: int|
                v.len() <= i < w.len() ==> exists|j: int|
                    #![trigger decl[j]]
                    0 <= j < decl.len() && decl[j].key == (#[trigger] w[i]).key && decl[j].value == w[i].value
        }),
    decreases decl.len(),
{
    let w = with_declared(v, decl, all);
    if decl.len() == 0 {
        assert(w.take(v.len() as int) =~= v);
    } else {
        let t = decl.drop_last();
        let d = decl.last();
        let x = with_declared(v, t, all);
        lemma_with_declared(v, t, all);
        assert(decl[decl.len() - 1] == d);
        assert(w.take(v.len() as int) =~= x.take(v.len() as int));
        assert forall|i: int| 0 <= i < decl.len() implies crate::gui::settings::has_key(w, (#[trigger] decl[i]).key) by {
            if i < t.len() {
                assert(t[i] == decl[i]);
                let k = choose|k: int| 0 <= k < x.len() && (#[trigger] x[k]).key == decl[i].key;
                assert(w[k].key == decl[i].key);
            } else if crate::gui::settings::has_key(x, d.key) {
                let k = choose|k: int| 0 <= k < x.len() && (#[trigger] x[k]).key == d.key;
                assert(w[k].key == d.key);
            } else {
                assert(w[w.len() - 1].key == d.key);
            }
        }
        assert forall|i: int| v.len() <= i < w.len() implies exists|j: int|
            #![trigger decl[j]]
            0 <= j < decl.len() && decl[j].key == (#[trigger] w[i]).key && decl[j].value == w[i].value by {
            if i < x.len() {
                assert(w[i] == x[i]);
                let j = choose|j: int|
                    #![trigger t[j]]
                    0 <= j < t.len() && t[j].key == x[i].key && t[j].value == x[i].value;
                assert(decl[j] == t[j]);
            } else {
                assert(decl[decl.len() - 1] == d);
            }
        }
    }
}

/// Every argument that a script declares is shown, unless there is no room for
/// it; one that is not saved has the value that it is declared with.
pub proof fn law_declared_are_shown(entries: Seq<(Seq<char>, JsonModel)>, file: Seq<char>, decl: Seq<SettingModel>, i: int)
    requires
        entries.len() + decl.len() <= crate::gui::settings::MAX_ARGS_PER_ROW,
        0 <= i < decl.len(),
    ensures
        ({
            let w = shown_args(Some(JsonModel::Obj(entries)), file, decl);
            &&& exists|k: int| 0 <= k < w.len() && (#[trigger] w[k]).key == decl[i].key
            &&& forall|k: int|
                entries.len() <= k < w.len() ==> exists|j: int|
                    #![trigger decl[j]]
                    0 <= j < decl.len() && decl[j].key == (#[trigger] w[k]).key && decl[j].value == w[k].value
        }),
{
    let v = crate::gui::settings::saved(entries, decl);
    lemma_with_declared(v, decl, decl);
    lemma_declared_len(v, decl, decl);
    let w = with_declared(v, decl, decl);
    assert(crate::gui::settings::has_key(w, decl[i].key));
    assert(w.len() > 0);
    assert(shown_args(Some(JsonModel::Obj(entries)), file, decl) == w);
    assert(v.len() == entries.len());
    let k = choose|k: int| 0 <= k < w.len() && (#[trigger] w[k]).key == decl[i].key;
    assert(w[k].key == decl[i].key);
}

proof fn lemma_declared_len(v: Seq<SettingModel>, decl: Seq<SettingModel>, all: Seq<SettingModel>)
    ensures
        with_declared(v, decl, all).len() <= v.len() + decl.len(),
    decreases decl.len(),
{
    if decl.len() > 0 {
        lemma_declared_len(v, decl.drop_last(), all);
    }
}

/// The label of a key is the first that was declared for it, or the key itself.
pub proof fn law_labels(decl: Seq<SettingModel>, key: Seq<char>, i: int)
    ensures
        0 <= i < decl.len() && decl[i].key == key && (forall|j: int| 0 <= j < i ==> (#[trigger] decl[j]).key != key)
            ==> label_for(decl, key) == decl[i].label,
        (forall|j: int| 0 <= j < decl.len() ==> (#[trigger] decl[j]).key != key) ==> label_for(decl, key) == key,
    decreases decl.len(),
{
    if decl.len() > 0 {
        let t = decl.drop_first();
        law_labels(t, key, i - 1);
        assert forall|j: int| 0 <= j < t.len() implies #[trigger] t[j] == decl[j + 1] by {}
        if forall|j: int| 0 <= j < decl.len() ==> (#[trigger] decl[j]).key != key {
            assert(decl[0].key != key);
            assert forall|j: int| 0 <= j < t.len() implies (#[trigger] t[j]).key != key by {
                assert(decl[j + 1].key != key);
            }
        }
        if 0 < i < decl.len() && (forall|j: int| 0 <= j < i ==> (#[trigger] decl[j]).key != key) {
            assert(decl[0].key != key);
            assert(t[i - 1] == decl[i]);
            assert forall|j: int| 0 <= j < i - 1 implies (#[trigger] t[j]).key != key by {
                assert(decl[j + 1].key != key);
            }
        }
    }
}

/// What is typed into a field is a switch, a whole number, another number or a
/// text; an empty field stands for nothing.
pub proof fn law_typed_values(s: Seq<char>, n: Option<crate::json::NumModel>)
    ensures
        ({
            let t = trimmed(s);
            let r = edited(s, n);
            &&& t.len() == 0 <==> r is None
            &&& t == "true"@ ==> r == Some(JsonModel::Bool(true))
            &&& t == "false"@ ==> r == Some(JsonModel::Bool(false))
            &&& t.len() > 0 && t != "true"@ && t != "false"@ && crate::text::signed_in(t) is None && n is None ==> r
                == Some(JsonModel::Str(t))
            &&& t.len() > 0 && t != "true"@ && t != "false"@ && crate::text::signed_in(t) is None && n is Some ==> r
                == Some(JsonModel::Num(n->0))
            &&& t.len() > 0 && t != "true"@ && t != "false"@ ==> (crate::text::signed_in(t) matches Some(i) ==> r
                matches Some(JsonModel::Num(m)) && m.signed == Some(i))
        }),
{
    reveal_strlit("true");
    reveal_strlit("false");
    assert("true"@.len() == 4 && "false"@.len() == 5);
}

/// The entries stand in the order of their keys, each key once.
pub open spec fn keys_ascend(v: Seq<(Seq<char>, JsonModel)>) -> bool {
    forall|i: int, j: int| 0 <= i < j < v.len() ==> text_lt((#[trigger] v[i]).0, (#[trigger] v[j]).0)
}

/// The value under a key.
pub open spec fn holds(v: Seq<(Seq<char>, JsonModel)>, key: Seq<char>, x: JsonModel) -> bool {
    exists|i: int| 0 <= i < v.len() && #[trigger] v[i] == (key, x)
}

proof fn lemma_inserted(v: Seq<(Seq<char>, JsonModel)>, key: Seq<char>, x: JsonModel)
    requires
        keys_ascend(v),
    ensures
        keys_ascend(inserted(v, key, x)),
        holds(inserted(v, key, x), key, x),
        forall|i: int|
            0 <= i < inserted(v, key, x).len() ==> (#[trigger] inserted(v, key, x)[i]) == (key, x) || (exists|j: int|
                #![trigger v[j]]
                0 <= j < v.len() && v[j] == inserted(v, key, x)[i]),
        forall|k: Seq<char>, y: JsonModel| k != key && holds(v, k, y) ==> #[trigger] holds(inserted(v, key, x), k, y),
    decreases v.len(),
{
    let w = inserted(v, key, x);
    if v.len() == 0 {
        assert(w[0] == (key, x));
    } else {
        let t = v.drop_last();
        let last = v.len() - 1;
        assert(v[last] == v.last());
        assert forall|i: int, j: int| 0 <= i < j < t.len() implies text_lt((#[trigger] t[i]).0, (#[trigger] t[j]).0) by {
            assert(t[i] == v[i] && t[j] == v[j]);
        }
        assert forall|j: int| 0 <= j < t.len() implies text_lt((#[trigger] t[j]).0, v.last().0) by {
            assert(t[j] == v[j]);
            assert(text_lt(v[j].0, v[last].0));
        }
        if v.last().0 == key {
            assert(w[last] == (key, x));
            assert forall|k: Seq<char>, y: JsonModel| k != key && holds(v, k, y) implies #[trigger] holds(w, k, y) by {
                let i = choose|i: int| 0 <= i < v.len() && #[trigger] v[i] == (k, y);
                assert(w[i] == v[i]);
            }
            assert forall|i: int, j: int| 0 <= i < j < w.len() implies text_lt((#[trigger] w[i]).0, (#[trigger] w[j]).0) by {
                assert(w[i].0 == v[i].0 && w[j].0 == v[j].0);
                assert(text_lt(v[i].0, v[j].0));
            }
            assert forall|i: int| 0 <= i < w.len() implies (#[trigger] w[i]) == (key, x) || (exists|j: int|
                #![trigger v[j]]
                0 <= j < v.len() && v[j] == w[i]) by {
                if i < last {
                    assert(w[i] == v[i]);
                }
            }
        } else if text_lt(v.last().0, key) {
            assert(w[v.len() as int] == (key, x));
            assert forall|i: int, j: int| 0 <= i < j < w.len() implies text_lt((#[trigger] w[i]).0, (#[trigger] w[j]).0) by {
                if j < v.len() {
                    assert(text_lt(v[i].0, v[j].0));
                } else if i < last {
                    assert(text_lt(v[i].0, v[last].0));
                    <String as crate::ordmap::Key>::lt_transitive(v[i].0, v[last].0, key);
                }
            }
            assert forall|k: Seq<char>, y: JsonModel| k != key && holds(v, k, y) implies #[trigger] holds(w, k, y) by {
                let i = choose|i: int| 0 <= i < v.len() && #[trigger] v[i] == (k, y);
                assert(w[i] == v[i]);
            }
            assert forall|i: int| 0 <= i < w.len() implies (#[trigger] w[i]) == (key, x) || (exists|j: int|
                #![trigger v[j]]
                0 <= j < v.len() && v[j] == w[i]) by {
                if i < v.len() {
                    assert(w[i] == v[i]);
                }
            }
        } else {
            lemma_inserted(t, key, x);
            let u = inserted(t, key, x);
            <String as crate::ordmap::Key>::lt_total(v.last().0, key);
            assert(text_lt(key, v.last().0));
            assert forall|i: int, j: int| 0 <= i < j < w.len() implies text_lt((#[trigger] w[i]).0, (#[trigger] w[j]).0) by {
                if j < u.len() {
                    assert(w[i] == u[i] && w[j] == u[j]);
                } else {
                    assert(w[i] == u[i]);
                    if u[i] != (key, x) {
                        let k = choose|k: int| #![trigger t[k]] 0 <= k < t.len() && t[k] == u[i];
                        assert(text_lt(t[k].0, v.last().0));
                    }
                }
            }
            let i0 = choose|i: int| 0 <= i < u.len() && #[trigger] u[i] == (key, x);
            assert(w[i0] == (key, x));
            assert forall|k: Seq<char>, y: JsonModel| k != key && holds(v, k, y) implies #[trigger] holds(w, k, y) by {
                let i = choose|i: int| 0 <= i < v.len() && #[trigger] v[i] == (k, y);
                if i < last {
                    assert(t[i] == v[i]);
                    assert(holds(t, k, y));
                    assert(holds(u, k, y));
                    let j = choose|j: int| 0 <= j < u.len() && #[trigger] u[j] == (k, y);
                    assert(w[j] == u[j]);
                } else {
                    assert(w[u.len() as int] == (k, y));
                }
            }
            assert forall|i: int| 0 <= i < w.len() implies (#[trigger] w[i]) == (key, x) || (exists|j: int|
                #![trigger v[j]]
                0 <= j < v.len() && v[j] == w[i]) by {
                if i < u.len() {
                    assert(w[i] == u[i]);
                    if u[i] != (key, x) {
                        let k = choose|k: int| #![trigger t[k]] 0 <= k < t.len() && t[k] == u[i];
                        assert(v[k] == t[k]);
                    }
                } else {
                    assert(v[last] == w[i]);
                }
            }
        }
    }
}

proof fn lemma_arranged(v: Seq<(Seq<char>, JsonModel)>)
    ensures
        keys_ascend(arranged(v)),
        forall|i: int|
            0 <= i < v.len() && (forall|j: int| i < j < v.len() ==> (#[trigger] v[j]).0 != v[i].0) ==> holds(
                arranged(v),
                (#[trigger] v[i]).0,
                v[i].1,
            ),
        forall|i: int|
            0 <= i < arranged(v).len() ==> exists|j: int|
                #![trigger v[j]]
                0 <= j < v.len() && v[j] == #[trigger] arranged(v)[i],
    decreases v.len(),
{
    if v.len() > 0 {
        let t = v.drop_last();
        let e = v.last();
        let last = v.len() - 1;
        assert(v[last] == e);
        lemma_arranged(t);
        lemma_inserted(arranged(t), e.0, e.1);
        let w = arranged(v);
        assert forall|i: int|
            0 <= i < v.len() && (forall|j: int| i < j < v.len() ==> (#[trigger] v[j]).0 != v[i].0) implies holds(
            w,
            (#[trigger] v[i]).0,
            v[i].1,
        ) by {
            if i < last {
                assert(t[i] == v[i]);
                assert(v[last].0 != v[i].0);
                assert forall|j: int| i < j < t.len() implies (#[trigger] t[j]).0 != t[i].0 by {
                    assert(t[j] == v[j]);
                }
                assert(holds(arranged(t), t[i].0, t[i].1));
            }
        }
        assert forall|i: int| 0 <= i < w.len() implies exists|j: int|
            #![trigger v[j]]
            0 <= j < v.len() && v[j] == #[trigger] w[i] by {
            if w[i] == (e.0, e.1) {
                assert(v[last] == w[i]);
            } else {
                let a = arranged(t);
                let k = choose|k: int| #![trigger a[k]] 0 <= k < a.len() && a[k] == w[i];
                let j = choose|j: int| #![trigger t[j]] 0 <= j < t.len() && t[j] == a[k];
                assert(v[j] == t[j]);
            }
        }
    }
}

/// The arguments that are saved stand in the order of their keys; each key has
/// the last value that was given for it, and no other key is there.
pub proof fn law_saved_arguments(v: Seq<(Seq<char>, JsonModel)>, i: int)
    ensures
        keys_ascend(arranged(v)),
        0 <= i < v.len() && (forall|j: int| i < j < v.len() ==> (#[trigger] v[j]).0 != v[i].0) ==> holds(
            arranged(v),
            v[i].0,
            v[i].1,
        ),
        0 <= i < arranged(v).len() ==> exists|j: int| 0 <= j < v.len() && #[trigger] v[j] == arranged(v)[i],
        v.len() > 0 ==> arranged(v).len() > 0,
{
    lemma_arranged(v);
    if v.len() > 0 {
        let last = v.len() - 1;
        assert(holds(arranged(v), v[last].0, v[last].1));
    }
}

/// A field that is filled in gives its value under its key; an empty one gives
/// nothing, and where all are empty there are no arguments.
pub proof fn law_filled_fields(v: Seq<Edit>, e: Edit)
    ensures
        given(Seq::empty()) == Seq::<(Seq<char>, JsonModel)>::empty(),
        trimmed(e.text@).len() == 0 ==> given(v.push(e)) == given(v),
        trimmed(e.text@).len() > 0 ==> given(v.push(e)) == given(v).push(
            (e.key@, edited(e.text@, crate::gui::settings::opt_num(e.number))->0),
        ),
        given(v).len() == 0 ==> args_of(v) is None,
        given(v).len() > 0 ==> args_of(v) == Some(JsonModel::Obj(arranged(given(v)))),
{
    assert(v.push(e).drop_last() =~= v);
    law_typed_values(e.text@, crate::gui::settings::opt_num(e.number));
    law_saved_arguments(given(v), 0);
}

/// A script is listed by its name, or by its place, from one on.
pub proof fn law_list_names(i: nat, name: Seq<char>)
    ensures
        name.len() > 0 ==> listed_name(i, name) == name,
        name.len() == 0 ==> listed_name(i, name) == "脚本 "@ + decimal(i + 1),
{
}

/// The buttons save and cancel, and the switch of each script flips that script.
pub proof fn law_buttons(i: usize)
    ensures
        pressed(crate::gui::settings::ID_SAVE) == Press::Save,
        pressed(crate::gui::settings::ID_CANCEL) == Press::Cancel,
        i < crate::gui::settings::PILLS ==> pressed((crate::gui::settings::ID_PILL_BASE + i) as usize) == Press::Flip(i),
{
}

/// Every entry of the menu does what it is for.
pub proof fn law_menu()
    ensures
        pick_of(1001) == Pick::Quit,
        pick_of(1002) == Pick::Avoid,
        pick_of(1003) == Pick::AutoHide,
        pick_of(1004) == Pick::Endpoints,
        pick_of(1005) == Pick::Autostart,
        pick_of(1006) == Pick::Stack,
        pick_of(1007) == Pick::ClickThrough,
        pick_of(1008) == Pick::Sound,
        pick_of(0) == Pick::Nothing,
{
}

} // verus!
