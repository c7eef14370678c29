//! The window in which the scripts are switched on and off and given their
//! arguments.

use vstd::prelude::*;
use vstd::string::*;

use crate::config::ScriptEntryConfig;
use crate::json::{json_model, opt_json, Json, JsonModel, JsonNum, NumModel};
use crate::ordmap::{text_less, text_lt};
use crate::text::{
    after_prefix, contains_text, cut_first, decimal, decimal_of, has_text, joined, lemma_signed_decimal,
    lemma_trimmed_stays, lines_in, lines_of, lowered, own, parse_i64, same_text, signed_decimal, signed_decimal_of,
    signed_in, split_first, strip_prefix, texts, to_lower, trim, trim_front, trim_start, trimmed,
};

verus! {

/// Numbers of the controls.
pub const ID_SAVE: usize = 1;

pub const ID_CANCEL: usize = 2;

pub const ID_PILL_BASE: usize = 2100;

pub const ID_HINT_BASE: usize = 2200;

pub const ID_EDIT_BASE: usize = 3000;

/// How many switches can be pressed.
pub const PILLS: usize = 512;

/// How many arguments a script shows.
pub const MAX_ARGS_PER_ROW: usize = 32;

/// An argument that a script declares.
pub struct Setting {
    pub key: String,
    pub label: String,
    pub value: String,
}

/// Model of a [`Setting`].
pub struct SettingModel {
    pub key: Seq<char>,
    pub label: Seq<char>,
    pub value: Seq<char>,
}

impl View for Setting {
    type V = SettingModel;

    open spec fn view(&self) -> SettingModel {
        SettingModel { key: self.key@, label: self.label@, value: self.value@ }
    }
}

/// Models of some settings.
pub open spec fn settings(v: Seq<Setting>) -> Seq<SettingModel> {
    v.map_values(|s: Setting| s@)
}

/// The part of a text between bars, counted from zero, trimmed.
pub open spec fn part(s: Seq<char>, i: nat) -> Option<Seq<char>>
    decreases i,
{
    match cut_first(s, '|') {
        Some((a, b)) => if i == 0 {
            Some(trimmed(a))
        } else {
            part(b, (i - 1) as nat)
        },
        None => if i == 0 {
            Some(trimmed(s))
        } else {
            None
        },
    }
}

fn part_of(s: &str, i: usize) -> (r: Option<String>)
    ensures
        r is Some <==> part(s@, i as nat) is Some,
        r is Some ==> r->0@ == part(s@, i as nat)->0,
    decreases i,
{
    match split_first(s, '|') {
        Some((a, b)) => if i == 0 {
            Some(trim(a.as_str()))
        } else {
            part_of(b.as_str(), i - 1)
        },
        None => if i == 0 {
            Some(trim(s))
        } else {
            None
        },
    }
}

/// The argument that a line of a script declares: its key, a label and a value,
/// with bars between them. The label and the value may be left out.
pub open spec fn declared_in(line: Seq<char>) -> Option<SettingModel> {
    match after_prefix(trim_front(line), "--[hannis:set]"@) {
        Some(rest) => {
            let key = part(rest, 0)->0;
            let label = part(rest, 1);
            let value = part(rest, 2);
            if key.len() == 0 {
                None
            } else {
                Some(
                    SettingModel {
                        key,
                        label: if label is Some && label->0.len() > 0 {
                            label->0
                        } else {
                            key
                        },
                        value: if value is Some {
                            value->0
                        } else {
                            seq![]
                        },
                    },
                )
            }
        },
        None => None,
    }
}

/// The arguments that some lines declare, in order.
pub open spec fn declared(lines: Seq<Seq<char>>) -> Seq<SettingModel>
    decreases lines.len(),
{
    if lines.len() == 0 {
        seq![]
    } else {
        let before = declared(lines.drop_last());
        match declared_in(lines.last()) {
            Some(s) => before.push(s),
            None => before,
        }
    }
}

fn declared_on(line: &str) -> (r: Option<Setting>)
    ensures
        r is Some <==> declared_in(line@) is Some,
        r is Some ==> r->0@ == declared_in(line@)->0,
{
    match strip_prefix(trim_start(line).as_str(), "--[hannis:set]") {
        Some(rest) => {
            let key = match part_of(rest.as_str(), 0) {
                Some(k) => k,
                None => String::new(),
            };
            if key.as_str().is_empty() {
                return None;
            }
            let label = match part_of(rest.as_str(), 1) {
                Some(l) => if l.as_str().is_empty() {
                    own(key.as_str())
                } else {
                    l
                },
                None => own(key.as_str()),
            };
            let value = match part_of(rest.as_str(), 2) {
                Some(v) => v,
                None => {
                    let e = String::new();
                    assert(e@ =~= seq![]);
                    e
                },
            };
            Some(Setting { key, label, value })
        },
        None => None,
    }
}

/// The arguments that a script declares in its comments.
pub fn declared_settings(text: &str) -> (r: Vec<Setting>)
    ensures
        settings(r@) == declared(lines_in(text@)),
{
    let lines = lines_of(text);
    let n: usize = lines.len();
    let ghost all = lines_in(text@);
    let mut out: Vec<Setting> = Vec::new();
    let mut i: usize = 0;
    assert(settings(out@) =~= declared(all.take(0)));
    while i < n
        invariant
            n == lines@.len(),
            all == texts(lines@),
            i <= n,
            settings(out@) == declared(all.take(i as int)),
        decreases n - i,
    {
        proof {
            assert(all.take(i + 1).drop_last() =~= all.take(i as int));
            assert(all.take(i + 1).last() == lines@[i as int]@);
        }
        let ghost was = out@;
        match declared_on(lines[i].as_str()) {
            Some(s) => {
                out.push(s);
                assert(settings(out@) =~= settings(was).push(s@));
            },
            None => {},
        }
        i += 1;
    }
    assert(all.take(i as int) =~= all);
    out
}

/// How a value stands in an edit field.
pub open spec fn edit_text(v: JsonModel) -> Seq<char> {
    match v {
        JsonModel::Str(s) => s,
        JsonModel::Num(n) => n.text,
        JsonModel::Bool(b) => if b {
            "true"@
        } else {
            "false"@
        },
        _ => seq![],
    }
}

/// How a value stands in an edit field.
pub fn value_to_edit(v: &Json) -> (r: String)
    ensures
        r@ == edit_text(v@),
{
    match v {
        Json::Str(s) => own(s.as_str()),
        Json::Num(n) => own(n.text.as_str()),
        Json::Bool(b) => if *b {
            own("true")
        } else {
            own("false")
        },
        _ => {
            let e = String::new();
            assert(e@ =~= seq![]);
            e
        },
    }
}

/// The model of a number that is a signed integer.
pub open spec fn int_model(n: i64) -> NumModel {
    NumModel {
        unsigned: if n >= 0 {
            Some(n as u64)
        } else {
            None
        },
        signed: Some(n),
        truncated: if n >= 0 {
            n as u64
        } else {
            0
        },
        text: signed_decimal(n as int),
    }
}

/// The value that the text of an edit field stands for. `number` is the number
/// that it writes, where it writes one with a fraction or an exponent. An empty
/// field stands for none.
pub open spec fn edited(s: Seq<char>, number: Option<NumModel>) -> Option<JsonModel> {
    let t = trimmed(s);
    if t.len() == 0 {
        None
    } else if t == "true"@ {
        Some(JsonModel::Bool(true))
    } else if t == "false"@ {
        Some(JsonModel::Bool(false))
    } else if signed_in(t) is Some {
        Some(JsonModel::Num(int_model(signed_in(t)->0)))
    } else if number is Some {
        Some(JsonModel::Num(number->0))
    } else {
        Some(JsonModel::Str(t))
    }
}

/// The number's model.
pub open spec fn opt_num(n: Option<JsonNum>) -> Option<NumModel> {
    match n {
        Some(n) => Some(n@),
        None => None,
    }
}

/// The value that the text of an edit field stands for.
pub fn edit_to_value(s: &str, number: &Option<JsonNum>) -> (r: Option<Json>)
    ensures
        opt_json(r) == edited(s@, opt_num(*number)),
{
    let t = trim(s);
    if t.as_str().is_empty() {
        return None;
    }
    if same_text(t.as_str(), "true") {
        return Some(Json::Bool(true));
    }
    if same_text(t.as_str(), "false") {
        return Some(Json::Bool(false));
    }
    match parse_i64(t.as_str()) {
        Some(i) => {
            let n = JsonNum {
                unsigned: if i >= 0 {
                    Some(i as u64)
                } else {
                    None
                },
                signed: Some(i),
                truncated: if i >= 0 {
                    i as u64
                } else {
                    0
                },
                text: signed_decimal_of(i),
            };
            assert(n@ == int_model(i));
            return Some(Json::Num(n));
        },
        None => {},
    }
    match number {
        Some(n) => {
            let n = JsonNum {
                unsigned: n.unsigned,
                signed: n.signed,
                truncated: n.truncated,
                text: own(n.text.as_str()),
            };
            assert(n@ == opt_num(*number)->0);
            Some(Json::Num(n))
        },
        None => Some(Json::Str(t)),
    }
}

/// A switch comes back from an edit field as it was.
pub proof fn law_switch_round_trip(b: bool, number: Option<NumModel>)
    ensures
        edited(edit_text(JsonModel::Bool(b)), number) == Some(JsonModel::Bool(b)),
{
    reveal_strlit("true");
    reveal_strlit("false");
    lemma_trimmed_stays("true"@);
    lemma_trimmed_stays("false"@);
}

/// A whole number comes back from an edit field as it was.
pub proof fn law_number_round_trip(n: i64, number: Option<NumModel>)
    ensures
        edited(edit_text(JsonModel::Num(int_model(n))), number) == Some(JsonModel::Num(int_model(n))),
{
    let s = signed_decimal(n as int);
    lemma_signed_decimal(n);
    reveal_strlit("true");
    reveal_strlit("false");
    assert(s[0] == '-' || crate::text::is_digit(s[0]));
    assert(s[s.len() - 1] == '-' || crate::text::is_digit(s[s.len() - 1]));
    lemma_trimmed_stays(s);
    assert("true"@[0] == 't');
    assert("false"@[0] == 'f');
}

/// A text comes back from an edit field as it was, if it has no spaces at its
/// ends and writes neither a switch nor a number.
pub proof fn law_text_round_trip(s: Seq<char>)
    requires
        s.len() > 0,
        trimmed(s) == s,
        s != "true"@,
        s != "false"@,
        signed_in(s) is None,
    ensures
        edited(edit_text(JsonModel::Str(s)), None) == Some(JsonModel::Str(s)),
{
}

/// A list holds a key.
pub open spec fn has_key(v: Seq<SettingModel>, key: Seq<char>) -> bool {
    exists|i: int| 0 <= i < v.len() && (#[trigger] v[i]).key == key
}

fn holds_key(v: &Vec<Setting>, key: &str) -> (r: bool)
    ensures
        r == has_key(settings(v@), key@),
{
    let n: usize = v.len();
    let mut i: usize = 0;
    while i < n
        invariant
            n == v@.len(),
            i <= n,
            forall|j: int| 0 <= j < i ==> (#[trigger] settings(v@)[j]).key != key@,
        decreases n - i,
    {
        if same_text(v[i].key.as_str(), key) {
            assert(settings(v@)[i as int].key == key@);
            return true;
        }
        i += 1;
    }
    false
}

/// The label that was declared for a key: the first one, or the key itself.
pub open spec fn label_for(decl: Seq<SettingModel>, key: Seq<char>) -> Seq<char>
    decreases decl.len(),
{
    if decl.len() == 0 {
        key
    } else if decl[0].key == key {
        decl[0].label
    } else {
        label_for(decl.drop_first(), key)
    }
}

fn label_of(decl: &Vec<Setting>, key: &str) -> (r: String)
    ensures
        r@ == label_for(settings(decl@), key@),
{
    let n: usize = decl.len();
    let mut i: usize = 0;
    let ghost all = settings(decl@);
    assert(all.subrange(0, n as int) =~= all);
    while i < n
        invariant
            n == decl@.len(),
            all == settings(decl@),
            i <= n,
            label_for(all, key@) == label_for(all.subrange(i as int, n as int), key@),
        decreases n - i,
    {
        proof {
            assert(all.subrange(i as int, n as int).drop_first() =~= all.subrange(i + 1, n as int));
            assert(all.subrange(i as int, n as int)[0] == decl@[i as int]@);
        }
        if same_text(decl[i].key.as_str(), key) {
            return own(decl[i].label.as_str());
        }
        i += 1;
    }
    own(key)
}

/// The arguments that are saved in a configuration.
pub open spec fn saved(entries: Seq<(Seq<char>, JsonModel)>, decl: Seq<SettingModel>) -> Seq<SettingModel> {
    entries.map_values(
        |e: (Seq<char>, JsonModel)|
            SettingModel { key: e.0, label: label_for(decl, e.0), value: edit_text(e.1) },
    )
}

/// The saved arguments with those that are only declared, once each.
pub open spec fn with_declared(v: Seq<SettingModel>, decl: Seq<SettingModel>, all: Seq<SettingModel>) -> Seq<
    SettingModel,
>
    decreases decl.len(),
{
    if decl.len() == 0 {
        v
    } else {
        let before = with_declared(v, decl.drop_last(), all);
        let d = decl.last();
        if has_key(before, d.key) {
            before
        } else {
            before.push(SettingModel { key: d.key, label: label_for(all, d.key), value: d.value })
        }
    }
}

/// The argument that the name of a script's file suggests.
pub open spec fn guessed(file: Seq<char>) -> Seq<SettingModel> {
    let f = lowered(file);
    if has_text(f, "maa"@) {
        seq![SettingModel { key: "log"@, label: "log"@, value: seq![] }]
    } else if has_text(f, "comfy"@) {
        seq![SettingModel { key: "url"@, label: "url"@, value: seq![] }]
    } else {
        seq![]
    }
}

/// The entries of an object; nothing for another value.
pub open spec fn entries_of(args: Option<JsonModel>) -> Seq<(Seq<char>, JsonModel)> {
    match args {
        Some(JsonModel::Obj(v)) => v,
        _ => seq![],
    }
}

/// The arguments that are shown for a script: the saved ones, then those that
/// it declares, else the one that the name of its file suggests.
pub open spec fn shown_args(args: Option<JsonModel>, file: Seq<char>, decl: Seq<SettingModel>) -> Seq<SettingModel> {
    let all = with_declared(saved(entries_of(args), decl), decl, decl);
    let v = if all.len() == 0 {
        guessed(file)
    } else {
        all
    };
    if v.len() > MAX_ARGS_PER_ROW {
        v.take(MAX_ARGS_PER_ROW as int)
    } else {
        v
    }
}

fn saved_args(args: &Option<Json>, decl: &Vec<Setting>) -> (r: Vec<Setting>)
    ensures
        settings(r@) == saved(entries_of(opt_json(*args)), settings(decl@)),
{
    let mut out: Vec<Setting> = Vec::new();
    let ghost entries = entries_of(opt_json(*args));
    let ghost goal = saved(entries, settings(decl@));
    match args {
        Some(Json::Obj(v)) => {
            let n: usize = v.len();
            let mut i: usize = 0;
            while i < n
                invariant
                    n == v@.len() == entries.len() == goal.len(),
                    i <= n,
                    forall|j: int|
                        0 <= j < n ==> #[trigger] entries[j] == (v@[j].0@, json_model(v@[j].1)),
                    goal == saved(entries, settings(decl@)),
                    settings(out@) =~= goal.take(i as int),
                decreases n - i,
            {
                let ghost was = out@;
                let key = own(v[i].0.as_str());
                let label = label_of(decl, v[i].0.as_str());
                let value = value_to_edit(&v[i].1);
                let s = Setting { key, label, value };
                out.push(s);
                proof {
                    assert(entries[i as int] == (v@[i as int].0@, json_model(v@[i as int].1)));
                    assert(goal[i as int] == s@);
                    assert(settings(out@) =~= settings(was).push(s@));
                }
                i += 1;
            }
        },
        _ => {},
    }
    assert(settings(out@) =~= goal);
    out
}

/// The arguments that are shown for a script.
pub fn row_args(args: &Option<Json>, file: &str, decl: &Vec<Setting>) -> (r: Vec<Setting>)
    ensures
        settings(r@) == shown_args(opt_json(*args), file@, settings(decl@)),
        r@.len() <= MAX_ARGS_PER_ROW,
{
    let mut out = saved_args(args, decl);
    let ghost all = settings(decl@);
    let ghost first = settings(out@);
    let n: usize = decl.len();
    let mut i: usize = 0;
    assert(all.take(0) =~= seq![]);
    while i < n
        invariant
            n == decl@.len(),
            all == settings(decl@),
            i <= n,
            settings(out@) == with_declared(first, all.take(i as int), all),
        decreases n - i,
    {
        proof {
            assert(all.take(i + 1).drop_last() =~= all.take(i as int));
            assert(all.take(i + 1).last() == decl@[i as int]@);
        }
        if !holds_key(&out, decl[i].key.as_str()) {
            let ghost was = out@;
            let s = Setting {
                key: own(decl[i].key.as_str()),
                label: label_of(decl, decl[i].key.as_str()),
                value: own(decl[i].value.as_str()),
            };
            out.push(s);
            assert(settings(out@) =~= settings(was).push(s@));
        }
        i += 1;
    }
    assert(all.take(n as int) =~= all);
    if out.len() == 0 {
        let f = to_lower(file);
        if contains_text(f.as_str(), "maa") {
            let s = Setting { key: own("log"), label: own("log"), value: String::new() };
            out.push(s);
            assert(s.value@ =~= seq![]);
            assert(settings(out@) =~= guessed(file@));
        } else if contains_text(f.as_str(), "comfy") {
            let s = Setting { key: own("url"), label: own("url"), value: String::new() };
            out.push(s);
            assert(s.value@ =~= seq![]);
            assert(settings(out@) =~= guessed(file@));
        } else {
            assert(settings(out@) =~= guessed(file@));
        }
    }
    if out.len() > MAX_ARGS_PER_ROW {
        let ghost was = settings(out@);
        out.truncate(MAX_ARGS_PER_ROW);
        assert(settings(out@) =~= was.take(MAX_ARGS_PER_ROW as int));
    }
    out
}

proof fn lemma_declared_keeps(v: Seq<SettingModel>, decl: Seq<SettingModel>, all: Seq<SettingModel>)
    ensures
        v.len() <= with_declared(v, decl, all).len(),
        v == with_declared(v, decl, all).take(v.len() as int),
    decreases decl.len(),
{
    if decl.len() > 0 {
        lemma_declared_keeps(v, decl.drop_last(), all);
        let before = with_declared(v, decl.drop_last(), all);
        let after = with_declared(v, decl, all);
        assert(after.take(v.len() as int) =~= before.take(v.len() as int));
    } else {
        assert(v.take(v.len() as int) =~= v);
    }
}

/// Saved values come before declared ones: what is in the configuration is
/// shown with the value that it has there.
pub proof fn law_saved_values_win(
    args: Option<JsonModel>,
    file: Seq<char>,
    decl: Seq<SettingModel>,
    i: int,
)
    requires
        0 <= i < entries_of(args).len(),
        i < MAX_ARGS_PER_ROW,
    ensures
        i < shown_args(args, file, decl).len(),
        shown_args(args, file, decl)[i].key == entries_of(args)[i].0,
        shown_args(args, file, decl)[i].value == edit_text(entries_of(args)[i].1),
{
    let v = saved(entries_of(args), decl);
    lemma_declared_keeps(v, decl, decl);
    let all = with_declared(v, decl, decl);
    assert(all.take(v.len() as int)[i] == v[i]);
}

/// The name under which a script is listed: its own, or its place.
pub open spec fn listed_name(i: nat, name: Seq<char>) -> Seq<char> {
    if name.len() == 0 {
        "脚本 "@ + decimal(i + 1)
    } else {
        name
    }
}

/// The name under which a script is listed.
pub fn list_name(i: usize, name: &str) -> (r: String)
    ensures
        r@ == listed_name(i as nat, name@),
{
    if name.is_empty() {
        joined("脚本 ", decimal_of(i as u128 + 1).as_str())
    } else {
        own(name)
    }
}

/// What stands beside a switch.
pub fn hint_text(on: bool) -> (r: &'static str)
    ensures
        r@ == if on {
            "已启用 · 点击停用"@
        } else {
            "已停用 · 点击启用"@
        },
{
    if on {
        "已启用 · 点击停用"
    } else {
        "已停用 · 点击启用"
    }
}

/// What a control asks for.
#[derive(Debug, Clone, Copy, PartialEq, Eq, Structural)]
pub enum Press {
    Save,
    Cancel,
    /// The switch of a script was pressed.
    Flip(usize),
    Nothing,
}

/// What a control asks for.
pub open spec fn pressed(id: usize) -> Press {
    if id == ID_SAVE {
        Press::Save
    } else if id == ID_CANCEL {
        Press::Cancel
    } else if ID_PILL_BASE <= id < ID_PILL_BASE + PILLS {
        Press::Flip((id - ID_PILL_BASE) as usize)
    } else {
        Press::Nothing
    }
}

/// Tells what a control asks for, and flips the switch that it is. Nothing takes
/// effect before it is saved.
pub fn on_command(id: usize, pills: &mut Vec<bool>) -> (r: Press)
    ensures
        r == pressed(id),
        final(pills)@ == match r {
            Press::Flip(i) => if i < old(pills)@.len() {
                old(pills)@.update(i as int, !old(pills)@[i as int])
            } else {
                old(pills)@
            },
            _ => old(pills)@,
        },
{
    if id == ID_SAVE {
        Press::Save
    } else if id == ID_CANCEL {
        Press::Cancel
    } else if id >= ID_PILL_BASE && id < ID_PILL_BASE + PILLS {
        let i: usize = id - ID_PILL_BASE;
        if i < pills.len() {
            let on = pills[i];
            pills.set(i, !on);
        }
        Press::Flip(i)
    } else {
        Press::Nothing
    }
}

/// The text of an edit field, and the number with a fraction that it writes.
pub struct Edit {
    pub key: String,
    pub text: String,
    pub number: Option<JsonNum>,
}

/// The values that edit fields stand for, without the empty ones.
pub open spec fn given(v: Seq<Edit>) -> Seq<(Seq<char>, JsonModel)>
    decreases v.len(),
{
    if v.len() == 0 {
        seq![]
    } else {
        let e = v.last();
        match edited(e.text@, opt_num(e.number)) {
            Some(x) => given(v.drop_last()).push((e.key@, x)),
            None => given(v.drop_last()),
        }
    }
}

/// Entries of an object with one more, in the order of the keys; one under the
/// same key is replaced.
pub open spec fn inserted(v: Seq<(Seq<char>, JsonModel)>, key: Seq<char>, x: JsonModel) -> Seq<(Seq<char>, JsonModel)>
    decreases v.len(),
{
    if v.len() == 0 {
        seq![(key, x)]
    } else if v.last().0 == key {
        v.drop_last().push((key, x))
    } else if text_lt(v.last().0, key) {
        v.push((key, x))
    } else {
        inserted(v.drop_last(), key, x).push(v.last())
    }
}

/// Entries in the order of their keys, the last one for each key.
pub open spec fn arranged(v: Seq<(Seq<char>, JsonModel)>) -> Seq<(Seq<char>, JsonModel)>
    decreases v.len(),
{
    if v.len() == 0 {
        seq![]
    } else {
        inserted(arranged(v.drop_last()), v.last().0, v.last().1)
    }
}

/// The arguments that edit fields make: an object, or none where all are empty.
pub open spec fn args_of(v: Seq<Edit>) -> Option<JsonModel> {
    let e = arranged(given(v));
    if e.len() == 0 {
        None
    } else {
        Some(JsonModel::Obj(e))
    }
}

/// Models of the entries of an object.
pub open spec fn pairs(v: Seq<(String, Json)>) -> Seq<(Seq<char>, JsonModel)> {
    v.map_values(|e: (String, Json)| (e.0@, e.1@))
}

fn insert_pair(v: &mut Vec<(String, Json)>, key: String, x: Json)
    ensures
        pairs(final(v)@) == inserted(pairs(old(v)@), key@, x@),
    decreases old(v)@.len(),
{
    let n: usize = v.len();
    let ghost before = v@;
    proof {
        assert(pairs(before.drop_last()) =~= pairs(before).drop_last() || n == 0);
    }
    if n == 0 {
        v.push((key, x));
        assert(pairs(v@) =~= seq![(key@, x@)]);
        return;
    }
    let last = v.pop();
    match last {
        Some(e) => {
            assert(pairs(before).last() == (e.0@, e.1@));
            assert(v@ =~= before.drop_last());
            if same_text(e.0.as_str(), key.as_str()) {
                let ghost was = v@;
                v.push((key, x));
                assert(pairs(v@) =~= pairs(was).push((key@, x@)));
            } else if text_less(e.0.as_str(), key.as_str()) {
                let ghost k = key@;
                let ghost m = x@;
                v.push(e);
                let ghost was = v@;
                assert(pairs(was) =~= pairs(before));
                v.push((key, x));
                assert(pairs(v@) =~= pairs(was).push((k, m)));
            } else {
                insert_pair(v, key, x);
                let ghost was = v@;
                v.push(e);
                assert(pairs(v@) =~= pairs(was).push((e.0@, e.1@)));
            }
        },
        None => {
            assert(false);
        },
    }
}

fn edits_to_args(v: &Vec<Edit>) -> (r: Option<Json>)
    ensures
        opt_json(r) == args_of(v@),
{
    let mut out: Vec<(String, Json)> = Vec::new();
    let ghost all = v@;
    let n: usize = v.len();
    let mut i: usize = 0;
    assert(pairs(out@) =~= arranged(given(all.take(0))));
    while i < n
        invariant
            n == all.len(),
            all == v@,
            i <= n,
            pairs(out@) == arranged(given(all.take(i as int))),
        decreases n - i,
    {
        proof {
            assert(all.take(i + 1).drop_last() =~= all.take(i as int));
            assert(all.take(i + 1).last() == v@[i as int]);
        }
        match edit_to_value(v[i].text.as_str(), &v[i].number) {
            Some(x) => {
                let key = own(v[i].key.as_str());
                proof {
                    let g = given(all.take(i as int));
                    assert(g.push((key@, x@)).drop_last() =~= g);
                }
                insert_pair(&mut out, key, x);
            },
            None => {},
        }
        i += 1;
    }
    assert(all.take(n as int) =~= all);
    if out.len() == 0 {
        assert(pairs(out@).len() == 0);
        None
    } else {
        let r = Json::Obj(out);
        proof {
            assert(r@->Obj_0 =~= pairs(out@));
        }
        Some(r)
    }
}

/// What the window came to for a script: whether it is on, and its edit fields.
pub struct Choice {
    pub enabled: bool,
    pub edits: Vec<Edit>,
}

/// Takes over what was chosen for a script. The rest of it stays.
pub fn apply_choice(sc: &mut ScriptEntryConfig, c: &Choice)
    ensures
        final(sc).enabled == c.enabled,
        opt_json(final(sc).args) == args_of(c.edits@),
        final(sc).name == old(sc).name,
        final(sc).file == old(sc).file,
        final(sc).poll_ms == old(sc).poll_ms,
        final(sc).sandbox == old(sc).sandbox,
        final(sc).debug == old(sc).debug,
{
    sc.enabled = c.enabled;
    sc.args = edits_to_args(&c.edits);
}

/// Lengths on the screen, each scaled with the screen.
#[derive(Debug, Clone, Copy)]
pub struct SettingsSizes {
    pub row_h: i32,
    pub gap: i32,
    pub group_gap: i32,
    pub margin: i32,
    pub label_w: i32,
    pub client_w: i32,
    pub pill_w: i32,
    pub indent: i32,
    pub hint_w: i32,
    pub hint_h: i32,
    pub btn_w: i32,
    pub btn_h: i32,
    pub edit_pad: i32,
}

impl SettingsSizes {
    /// The lengths at scale one.
    pub fn unscaled() -> (r: SettingsSizes)
        ensures
            r == (SettingsSizes {
                row_h: 36,
                gap: 10,
                group_gap: 18,
                margin: 20,
                label_w: 130,
                client_w: 600,
                pill_w: 190,
                indent: 14,
                hint_w: 170,
                hint_h: 18,
                btn_w: 110,
                btn_h: 34,
                edit_pad: 6,
            }),
            r.modest(),
    {
        SettingsSizes {
            row_h: 36,
            gap: 10,
            group_gap: 18,
            margin: 20,
            label_w: 130,
            client_w: 600,
            pill_w: 190,
            indent: 14,
            hint_w: 170,
            hint_h: 18,
            btn_w: 110,
            btn_h: 34,
            edit_pad: 6,
        }
    }

    /// Lengths of a screen that there can be.
    pub open spec fn modest(self) -> bool {
        &&& 0 <= self.row_h <= 0xffff
        &&& 0 <= self.gap <= 0xffff
        &&& 0 <= self.group_gap <= 0xffff
        &&& 0 <= self.margin <= 0xffff
        &&& 0 <= self.label_w <= 0xffff
        &&& 0 <= self.client_w <= 0xffff
        &&& 0 <= self.pill_w <= 0xffff
        &&& 0 <= self.indent <= 0xffff
        &&& 0 <= self.hint_w <= 0xffff
        &&& 0 <= self.hint_h <= 0xffff
        &&& 0 <= self.btn_w <= 0xffff
        &&& 0 <= self.btn_h <= 0xffff
        &&& 0 <= self.edit_pad <= 0xffff
    }

    /// How far down the row of a script and those of its arguments reach.
    pub open spec fn group_h(self, args: nat) -> int {
        (1 + args) * (self.row_h + self.gap) + (self.group_gap - self.gap)
    }

    /// Where the buttons stand below some scripts, given how many arguments
    /// each has.
    pub open spec fn buttons_y(self, rows: Seq<usize>) -> int
        decreases rows.len(),
    {
        if rows.len() == 0 {
            self.margin as int
        } else {
            self.buttons_y(rows.drop_last()) + self.group_h(rows.last() as nat)
        }
    }

    /// How many rows some scripts take.
    pub open spec fn lines(self, rows: Seq<usize>) -> int
        decreases rows.len(),
    {
        if rows.len() == 0 {
            0
        } else {
            self.lines(rows.drop_last()) + 1 + rows.last()
        }
    }
}

/// The height of the window: its rows, its gaps, its buttons and a margin.
pub open spec fn client_height(s: SettingsSizes, rows: Seq<usize>) -> int {
    s.lines(rows) * (s.row_h + s.gap) + rows.len() * (s.group_gap - s.gap) + s.btn_h + s.margin
}

/// The buttons end where the window does: nothing of them is cut off.
pub proof fn law_buttons_fit(s: SettingsSizes, rows: Seq<usize>)
    ensures
        s.buttons_y(rows) + s.btn_h == client_height(s, rows),
    decreases rows.len(),
{
    if rows.len() > 0 {
        let r = rows.drop_last();
        law_buttons_fit(s, r);
        let a = s.row_h + s.gap;
        let b = s.group_gap - s.gap;
        let n = s.lines(r);
        let k = 1 + rows.last();
        assert((n + k) * a == n * a + k * a) by (nonlinear_arith);
        assert((r.len() + 1) * b == r.len() * b + b) by (nonlinear_arith);
        assert((1 + rows.last() as nat) * a == k * a);
    } else {
        assert(0 * (s.row_h + s.gap) == 0);
        assert(0 * (s.group_gap - s.gap) == 0);
    }
}

/// Where a control stands.
#[derive(Debug, Clone, Copy, PartialEq, Eq, Structural)]
pub struct Place {
    pub x: i64,
    pub y: i64,
    pub w: i64,
    pub h: i64,
}

/// The switch of a script whose row begins at `y`.
pub fn pill_place(s: &SettingsSizes, y: i64) -> (r: Place)
    ensures
        r == (Place { x: s.margin as i64, y, w: s.pill_w as i64, h: s.row_h as i64 }),
{
    Place { x: s.margin as i64, y, w: s.pill_w as i64, h: s.row_h as i64 }
}

/// The hint beside a switch, in the middle of the row.
pub fn hint_place(s: &SettingsSizes, y: i64) -> (r: Place)
    requires
        s.modest(),
        0 <= y <= 0xff_ffff_ffff,
    ensures
        r.x == s.margin + s.pill_w + s.gap,
        s.row_h >= s.hint_h ==> r.y == y + (s.row_h - s.hint_h) / 2,
        s.row_h < s.hint_h ==> r.y == y - (s.hint_h - s.row_h) / 2,
        r.w == s.hint_w,
        r.h == s.hint_h,
{
    let shift: i64 = if s.row_h >= s.hint_h {
        ((s.row_h - s.hint_h) / 2) as i64
    } else {
        -(((s.hint_h - s.row_h) / 2) as i64)
    };
    Place {
        x: s.margin as i64 + s.pill_w as i64 + s.gap as i64,
        y: y + shift,
        w: s.hint_w as i64,
        h: s.hint_h as i64,
    }
}

/// The label and the edit field of an argument whose row begins at `y`.
pub fn arg_places(s: &SettingsSizes, y: i64) -> (r: (Place, Place))
    requires
        s.modest(),
        0 <= y <= 0xff_ffff_ffff,
    ensures
        r.0 == (Place {
            x: (s.margin + s.indent) as i64,
            y: (y + s.edit_pad) as i64,
            w: s.label_w as i64,
            h: (s.row_h - 2 * s.edit_pad) as i64,
        }),
        r.1 == (Place {
            x: (s.margin + s.indent + s.label_w + s.gap) as i64,
            y: (y + s.edit_pad) as i64,
            w: (s.client_w - 2 * s.margin - s.indent - s.label_w - 2 * s.gap) as i64,
            h: (s.row_h - 2 * s.edit_pad) as i64,
        }),
{
    let x: i64 = s.margin as i64 + s.indent as i64;
    let y: i64 = y + s.edit_pad as i64;
    let h: i64 = s.row_h as i64 - 2 * s.edit_pad as i64;
    (
        Place { x, y, w: s.label_w as i64, h },
        Place {
            x: x + s.label_w as i64 + s.gap as i64,
            y,
            w: s.client_w as i64 - 2 * s.margin as i64 - s.indent as i64 - s.label_w as i64 - 2 * s.gap as i64,
            h,
        },
    )
}

/// The two buttons: save, then cancel, at the right.
pub fn button_places(s: &SettingsSizes, y: i64) -> (r: (Place, Place))
    requires
        s.modest(),
    ensures
        r.0 == (Place {
            x: (s.client_w - s.margin - 2 * s.btn_w - s.gap) as i64,
            y,
            w: s.btn_w as i64,
            h: s.btn_h as i64,
        }),
        r.1 == (Place { x: (s.client_w - s.margin - s.btn_w) as i64, y, w: s.btn_w as i64, h: s.btn_h as i64 }),
{
    let right: i64 = s.client_w as i64 - s.margin as i64;
    (
        Place { x: right - 2 * s.btn_w as i64 - s.gap as i64, y, w: s.btn_w as i64, h: s.btn_h as i64 },
        Place { x: right - s.btn_w as i64, y, w: s.btn_w as i64, h: s.btn_h as i64 },
    )
}

/// Where the row of each script begins, and last where the buttons stand.
pub fn row_tops(s: &SettingsSizes, rows: &Vec<usize>) -> (r: Vec<i64>)
    requires
        s.modest(),
        rows@.len() <= 0xffff,
        forall|i: int| 0 <= i < rows@.len() ==> rows@[i] <= MAX_ARGS_PER_ROW,
    ensures
        r@.len() == rows@.len() + 1,
        forall|i: int| 0 <= i < r@.len() ==> #[trigger] r@[i] == s.buttons_y(rows@.take(i)),
        forall|i: int| 0 <= i < r@.len() ==> -0x1_0000_0000 <= #[trigger] r@[i] <= 0x100_0000_0000,
{
    let n: usize = rows.len();
    let mut out: Vec<i64> = Vec::new();
    let mut y: i64 = s.margin as i64;
    let mut i: usize = 0;
    assert(rows@.take(0) =~= seq![]);
    out.push(y);
    while i < n
        invariant
            s.modest(),
            n == rows@.len() <= 0xffff,
            forall|k: int| 0 <= k < rows@.len() ==> rows@[k] <= MAX_ARGS_PER_ROW,
            i <= n,
            y == s.buttons_y(rows@.take(i as int)),
            -0xffff * i <= y <= 0xffff + 0x100_0000 * i,
            out@.len() == i + 1,
            forall|k: int| 0 <= k <= i ==> #[trigger] out@[k] == s.buttons_y(rows@.take(k)),
            forall|k: int| 0 <= k <= i ==> -0x1_0000_0000 <= #[trigger] out@[k] <= 0x100_0000_0000,
        decreases n - i,
    {
        let k: i64 = 1 + rows[i] as i64;
        let row: i64 = s.row_h as i64 + s.gap as i64;
        proof {
            assert(0 <= k * row <= 33 * 0x1_fffe) by (nonlinear_arith)
                requires
                    0 <= k <= 33,
                    0 <= row <= 0x1_fffe,
            ;
            assert(rows@.take(i + 1).drop_last() =~= rows@.take(i as int));
            assert(rows@.take(i + 1).last() == rows@[i as int]);
            assert((1 + rows@[i as int] as nat) * (s.row_h + s.gap) == k * row);
        }
        y = y + k * row + (s.group_gap as i64 - s.gap as i64);
        out.push(y);
        i += 1;
    }
    out
}

/// How high the window is.
pub fn client_height_of(s: &SettingsSizes, rows: &Vec<usize>) -> (r: i64)
    requires
        s.modest(),
        rows@.len() <= 0xffff,
        forall|i: int| 0 <= i < rows@.len() ==> rows@[i] <= MAX_ARGS_PER_ROW,
    ensures
        r == client_height(*s, rows@),
{
    let tops = row_tops(s, rows);
    let n: usize = rows.len();
    proof {
        law_buttons_fit(*s, rows@);
        assert(rows@.take(n as int) =~= rows@);
    }
    tops[n] + s.btn_h as i64
}

} // verus!
