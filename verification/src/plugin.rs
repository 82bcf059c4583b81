//! Lua plugins: their metadata with its defaults, their per-plugin settings,
//! the tables they are handed and how their answer is applied.
use vstd::prelude::*;
use crate::pipeline::{Event, Side};
use crate::settings::{entry_map, Settings};
use crate::text::{chars_eq_str, chars_of, find_first, lines, split_lines, split_once, string_from_chars, trim, trim_bounds};

verus! {

broadcast use vstd::seq_lib::group_seq_properties;

/// Declares `mlua::Lua`, the interpreter that plugins run in.
#[verifier::external_type_specification]
#[verifier::external_body]
pub struct ExLua(mlua::Lua);

/// Declares `mlua::Table`, a Lua table.
#[verifier::external_type_specification]
#[verifier::external_body]
pub struct ExLuaTable(mlua::Table);

/// Declares `mlua::Error`.
#[verifier::external_type_specification]
#[verifier::external_body]
pub struct ExLuaError(mlua::Error);

/// A setting that a plugin declares, shown in the WebUI.
pub struct SettingDef {
    pub key: String,
    pub label: String,
    pub kind: String,
    pub default: String,
    pub min: Option<i32>,
    pub max: Option<i32>,
}

/// A plugin's metadata, as listed in the manifest.
pub struct PluginMeta {
    pub id: String,
    pub name: String,
    pub version: String,
    pub author: String,
    pub description: Option<String>,
    pub enabled: bool,
    pub settings: Vec<SettingDef>,
}

/// The plugin manifest that the WebUI reads.
pub struct Manifest {
    pub plugins: Vec<PluginMeta>,
}

/// A value stored in a field of a table handed to a plugin.
pub enum LuaField {
    Str(String),
    Int(i32),
    Code(u16),
    Bool(bool),
}

/// The view of a field value.
pub open spec fn field_view(f: LuaField) -> LuaFieldView {
    match f {
        LuaField::Str(s) => LuaFieldView::Str(s@),
        LuaField::Int(i) => LuaFieldView::Int(i),
        LuaField::Code(c) => LuaFieldView::Code(c),
        LuaField::Bool(b) => LuaFieldView::Bool(b),
    }
}

/// A field value, with strings as character sequences.
pub ghost enum LuaFieldView {
    Str(Seq<char>),
    Int(i32),
    Code(u16),
    Bool(bool),
}

/// The name of a side.
pub open spec fn side_name(side: Side) -> Seq<char> {
    match side {
        Side::Left => "left"@,
        Side::Right => "right"@,
    }
}

/// The fields of the table that describes `event` to a plugin: `kind` is
/// "stick", "trigger" or "button"; sticks carry `x`, `y` and `side`,
/// triggers `value` and `side`, buttons `code` and `pressed`.
pub open spec fn event_fields_spec(event: Event) -> Seq<(Seq<char>, LuaFieldView)> {
    match event {
        Event::Stick { x, y, side } => seq![
            ("kind"@, LuaFieldView::Str("stick"@)),
            ("x"@, LuaFieldView::Int(x)),
            ("y"@, LuaFieldView::Int(y)),
            ("side"@, LuaFieldView::Str(side_name(side))),
        ],
        Event::Trigger { value, side } => seq![
            ("kind"@, LuaFieldView::Str("trigger"@)),
            ("value"@, LuaFieldView::Int(value)),
            ("side"@, LuaFieldView::Str(side_name(side))),
        ],
        Event::Button { code, pressed } => seq![
            ("kind"@, LuaFieldView::Str("button"@)),
            ("code"@, LuaFieldView::Code(code)),
            ("pressed"@, LuaFieldView::Bool(pressed)),
        ],
    }
}

/// The fields of the table that describes `event`; see `event_fields_spec`.
pub fn event_fields(event: &Event) -> (r: Vec<(&'static str, LuaField)>)
    ensures
        r@.map_values(|f: (&'static str, LuaField)| (f.0@, field_view(f.1))) == event_fields_spec(
            *event,
        ),
{
    let mut r: Vec<(&'static str, LuaField)> = Vec::new();
    match event {
        Event::Stick { x, y, side } => {
            r.push(("kind", LuaField::Str(String::from_str("stick"))));
            r.push(("x", LuaField::Int(*x)));
            r.push(("y", LuaField::Int(*y)));
            r.push(("side", LuaField::Str(String::from_str(side.as_str()))));
        },
        Event::Trigger { value, side } => {
            r.push(("kind", LuaField::Str(String::from_str("trigger"))));
            r.push(("value", LuaField::Int(*value)));
            r.push(("side", LuaField::Str(String::from_str(side.as_str()))));
        },
        Event::Button { code, pressed } => {
            r.push(("kind", LuaField::Str(String::from_str("button"))));
            r.push(("code", LuaField::Code(*code)));
            r.push(("pressed", LuaField::Bool(*pressed)));
        },
    }
    assert(r@.map_values(|f: (&'static str, LuaField)| (f.0@, field_view(f.1))) =~= event_fields_spec(*event));
    r
}

/// What the Lua table behind `t` holds under string keys, each value as the
/// library stored it. A `Table` is a shared handle; the contracts below treat
/// the handle they are given as the only way to the table, which holds for the
/// tables this library creates and fills until it hands them out.
pub uninterp spec fn lua_table_contents(t: mlua::Table) -> Map<Seq<char>, LuaFieldView>;

/// Whether the Lua table behind `t` has a metatable.
pub uninterp spec fn lua_table_has_metatable(t: mlua::Table) -> bool;

/// The map of `fields`, a later field overriding an earlier one of the same
/// name.
pub open spec fn fields_map(fields: Seq<(Seq<char>, LuaFieldView)>) -> Map<Seq<char>, LuaFieldView>
    decreases fields.len(),
{
    if fields.len() == 0 {
        Map::empty()
    } else {
        fields_map(fields.drop_last()).insert(fields.last().0, fields.last().1)
    }
}

/// The view of a list of named fields.
pub open spec fn fields_view(fields: Seq<(&'static str, LuaField)>) -> Seq<(Seq<char>, LuaFieldView)> {
    fields.map_values(|f: (&'static str, LuaField)| (f.0@, field_view(f.1)))
}

/// `Lua::create_table`: a new empty table without a metatable
/// (`lua_createtable`), or the interpreter's error.
#[verifier::external_body]
fn lua_create_table(lua: &mlua::Lua) -> (r: Result<mlua::Table, mlua::Error>)
    ensures
        r is Ok ==> lua_table_contents(r->Ok_0).dom() == Set::<Seq<char>>::empty(),
        r is Ok ==> !lua_table_has_metatable(r->Ok_0),
{
    lua.create_table()
}

/// `Table::set`: stores `value` under `key`, or gives the interpreter's error.
/// On a table without a metatable it is `raw_set`: on success the key maps to
/// the value and nothing else changes; it never gives the table a metatable.
/// What a metatable's `__newindex` does is not stated, nor what a failed set
/// leaves behind.
#[verifier::external_body]
fn table_set(t: &mut mlua::Table, key: &str, value: LuaField) -> (r: Result<(), mlua::Error>)
    ensures
        !lua_table_has_metatable(*old(t)) ==> !lua_table_has_metatable(*final(t)),
        !lua_table_has_metatable(*old(t)) && r is Ok ==> lua_table_contents(*final(t))
            == lua_table_contents(*old(t)).insert(key@, field_view(value)),
{
    match value {
        LuaField::Str(s) => t.set(key, s),
        LuaField::Int(i) => t.set(key, i),
        LuaField::Code(c) => t.set(key, c),
        LuaField::Bool(b) => t.set(key, b),
    }
}

/// Builds the table that describes `event` to a plugin: a new table without a
/// metatable, with the fields `event_fields` lists, set in that order. An
/// error of the interpreter is handed back.
pub fn build_event_table(lua: &mlua::Lua, event: &Event) -> (r: Result<mlua::Table, mlua::Error>)
    ensures
        r matches Ok(t) ==> lua_table_contents(t) == fields_map(event_fields_spec(*event))
            && !lua_table_has_metatable(t),
{
    let mut t = match lua_create_table(lua) {
        Ok(t) => t,
        Err(e) => return Err(e),
    };
    let fields = event_fields(event);
    let ghost all = fields_view(fields@);
    let mut fields = fields;
    let ghost mut done: int = 0;
    while fields.len() > 0
        invariant
            0 <= done <= all.len(),
            fields_view(fields@) == all.skip(done),
            lua_table_contents(t) == fields_map(all.take(done)),
            !lua_table_has_metatable(t),
        decreases fields@.len(),
    {
        let ghost before = fields@;
        let (k, v) = fields.remove(0);
        proof {
            assert(fields_view(before).len() == before.len());
            assert(done < all.len());
            assert(fields_view(before)[0] == (k@, field_view(v)));
            assert forall|j: int| 0 <= j < fields@.len() implies #[trigger] fields_view(fields@)[j]
                == all.skip(done + 1)[j] by {
                assert(fields@[j] == before[j + 1]);
                assert(fields_view(before)[j + 1] == all.skip(done)[j + 1]);
            }
            assert(fields_view(fields@) =~= all.skip(done + 1));
            assert(all.take(done + 1).drop_last() =~= all.take(done));
        }
        match table_set(&mut t, k, v) {
            Ok(()) => {},
            Err(e) => return Err(e),
        }
        proof {
            done = done + 1;
        }
    }
    proof {
        assert(all.take(done) =~= all);
    }
    Ok(t)
}

/// Builds the table of settings handed to a plugin: a new table without a
/// metatable, with each setting's name mapped to its value as a string. An
/// error of the interpreter is handed back.
pub fn build_cfg_table(lua: &mlua::Lua, settings: &Settings) -> (r: Result<mlua::Table, mlua::Error>)
    ensures
        r matches Ok(t) ==> lua_table_contents(t) == settings@.map_values(
            |v: Seq<char>| LuaFieldView::Str(v),
        ) && !lua_table_has_metatable(t),
{
    let mut t = match lua_create_table(lua) {
        Ok(t) => t,
        Err(e) => return Err(e),
    };
    let entries = settings.entries();
    let mut i: usize = 0;
    while i < entries.len()
        invariant
            i <= entries@.len(),
            lua_table_contents(t) == entry_map(entries@.take(i as int)).map_values(
                |v: Seq<char>| LuaFieldView::Str(v),
            ),
            !lua_table_has_metatable(t),
        decreases entries@.len() - i,
    {
        let v = entries[i].1.clone();
        match table_set(&mut t, entries[i].0.as_str(), LuaField::Str(v)) {
            Ok(()) => {},
            Err(e) => return Err(e),
        }
        proof {
            let s = entries@.take(i + 1);
            assert(s.drop_last() =~= entries@.take(i as int));
            assert(lua_table_contents(t) =~= entry_map(s).map_values(|v: Seq<char>| LuaFieldView::Str(v)));
        }
        i = i + 1;
    }
    assert(entries@.take(i as int) =~= entries@);
    Ok(t)
}

/// The settings a plugin sees: the global ones, overridden by its own.
pub fn merge_settings(global: &Settings, own: &Settings) -> (r: Settings)
    ensures
        r@ == global@.union_prefer_right(own@),
{
    let mut r = global.duplicate();
    let entries = own.entries();
    let mut i: usize = 0;
    while i < entries.len()
        invariant
            i <= entries@.len(),
            entry_map(entries@) == own@,
            r@ == global@.union_prefer_right(entry_map(entries@.take(i as int))),
        decreases entries@.len() - i,
    {
        r.insert(entries[i].0.clone(), entries[i].1.clone());
        proof {
            let t = entries@.take(i + 1);
            assert(t.drop_last() =~= entries@.take(i as int));
            assert(r@ =~= global@.union_prefer_right(entry_map(t)));
        }
        i = i + 1;
    }
    assert(entries@.take(i as int) =~= entries@);
    r
}

/// Applies a plugin's answer to the event in flight: a stick takes the `x`
/// and `y` it gives, a trigger the `value`, a button the `pressed` state;
/// a field that is absent (or of another type) leaves the event's value alone.
pub fn apply_result(
    event: &mut Event,
    x: Option<i32>,
    y: Option<i32>,
    value: Option<i32>,
    pressed: Option<bool>,
)
    ensures
        *final(event) == (match *old(event) {
            Event::Stick { x: ox, y: oy, side } => Event::Stick {
                x: match x {
                    Some(v) => v,
                    None => ox,
                },
                y: match y {
                    Some(v) => v,
                    None => oy,
                },
                side,
            },
            Event::Trigger { value: ov, side } => Event::Trigger {
                value: match value {
                    Some(v) => v,
                    None => ov,
                },
                side,
            },
            Event::Button { code, pressed: op } => Event::Button {
                code,
                pressed: match pressed {
                    Some(v) => v,
                    None => op,
                },
            },
        }),
{
    match event {
        Event::Stick { x: ex, y: ey, .. } => {
            if let Some(v) = x {
                *ex = v;
            }
            if let Some(v) = y {
                *ey = v;
            }
        },
        Event::Trigger { value: ev, .. } => {
            if let Some(v) = value {
                *ev = v;
            }
        },
        Event::Button { pressed: ep, .. } => {
            if let Some(v) = pressed {
                *ep = v;
            }
        },
    }
}

/// The per-plugin settings that the text of a plugin's config file gives:
/// every line with an `=` sets the trimmed text before the first `=` to the
/// trimmed text after it, later lines overriding earlier ones.
pub open spec fn plugin_config_of(ls: Seq<Seq<char>>) -> Map<Seq<char>, Seq<char>>
    decreases ls.len(),
{
    if ls.len() == 0 {
        Map::empty()
    } else {
        let m = plugin_config_of(ls.drop_last());
        match split_once(ls.last(), '=') {
            Some((k, v)) => m.insert(trim(k), trim(v)),
            None => m,
        }
    }
}

/// Copies `s[a..b]` out.
fn copy_range(s: &[char], a: usize, b: usize) -> (r: Vec<char>)
    requires
        a <= b <= s@.len(),
    ensures
        r@ == s@.subrange(a as int, b as int),
{
    let mut r: Vec<char> = Vec::new();
    let mut j: usize = a;
    while j < b
        invariant
            a <= j <= b <= s@.len(),
            r@ == s@.subrange(a as int, j as int),
        decreases b - j,
    {
        r.push(s[j]);
        assert(r@ =~= s@.subrange(a as int, j + 1));
        j = j + 1;
    }
    r
}

/// Reads a plugin's config file; see `plugin_config_of`.
pub fn parse_plugin_config(text: &str) -> (r: Settings)
    ensures
        r@ == plugin_config_of(lines(text@)),
{
    let chars = chars_of(text);
    let ls = split_lines(chars.as_slice());
    let ghost lv = lines(text@);
    let mut r = Settings::new();
    let mut i: usize = 0;
    while i < ls.len()
        invariant
            i <= ls@.len() == lv.len(),
            lv == lines(text@),
            forall|k: int| 0 <= k < ls@.len() ==> (#[trigger] ls@[k])@ == lv[k],
            r@ == plugin_config_of(lv.take(i as int)),
        decreases ls@.len() - i,
    {
        let line = ls[i].as_slice();
        assert(lv.take(i + 1).drop_last() =~= lv.take(i as int));
        match find_first(line, '=') {
            Some(j) => {
                assert(j < line.len());
                let (ka, kb) = trim_bounds(&line[0..j]);
                let (va, vb) = trim_bounds(&line[j + 1..line.len()]);
                let key = copy_range(line, ka, kb);
                let val = copy_range(line, j + 1 + va, j + 1 + vb);
                proof {
                    assert(line@.take(j as int) =~= line@.subrange(0, j as int));
                    assert(line@.skip(j + 1) =~= line@.subrange(j + 1, line@.len() as int));
                    assert(key@ =~= line@.subrange(0, j as int).subrange(ka as int, kb as int));
                    assert(val@ =~= line@.subrange(j + 1, line@.len() as int).subrange(
                        va as int,
                        vb as int,
                    ));
                }
                r.insert(string_from_chars(key.as_slice()), string_from_chars(val.as_slice()));
            },
            None => {},
        }
        i = i + 1;
    }
    assert(lv.take(i as int) =~= lv);
    r
}

/// The key under which the daemon config switches plugin `id` on or off.
pub open spec fn enable_key(id: Seq<char>) -> Seq<char> {
    "plugin."@ + id
}

/// Whether plugin `id` is enabled: it is unless the config sets
/// `plugin.<id>` to something other than `1`.
pub open spec fn enabled_spec(config: Map<Seq<char>, Seq<char>>, id: Seq<char>) -> bool {
    config.contains_key(enable_key(id)) ==> config[enable_key(id)] == "1"@
}

/// Whether plugin `id` is enabled; see `enabled_spec`.
pub fn plugin_enabled(config: &Settings, id: &str) -> (r: bool)
    ensures
        r == enabled_spec(config@, id@),
{
    let mut key = String::from_str("plugin.");
    key.append(id);
    match config.get(key.as_str()) {
        Some(v) => chars_eq_str(chars_of(v.as_str()).as_slice(), "1"),
        None => true,
    }
}

/// The string `v`, or the literal `default` when absent.
fn or_default(v: Option<String>, default: &str) -> (r: String)
    ensures
        r@ == (match v {
            Some(s) => s@,
            None => default@,
        }),
{
    match v {
        Some(s) => s,
        None => String::from_str(default),
    }
}

impl SettingDef {
    /// A setting from the fields a plugin gives for it: the key and label
    /// default to empty, the kind to "number", the default value to "0".
    pub fn from_fields(
        key: Option<String>,
        label: Option<String>,
        kind: Option<String>,
        default: Option<String>,
        min: Option<i32>,
        max: Option<i32>,
    ) -> (r: SettingDef)
        ensures
            r.key@ == (match key {
                Some(s) => s@,
                None => ""@,
            }),
            r.label@ == (match label {
                Some(s) => s@,
                None => ""@,
            }),
            r.kind@ == (match kind {
                Some(s) => s@,
                None => "number"@,
            }),
            r.default@ == (match default {
                Some(s) => s@,
                None => "0"@,
            }),
            r.min == min,
            r.max == max,
    {
        SettingDef {
            key: or_default(key, ""),
            label: or_default(label, ""),
            kind: or_default(kind, "number"),
            default: or_default(default, "0"),
            min,
            max,
        }
    }
}

impl PluginMeta {
    /// A plugin's metadata from the fields its table gives: the id defaults to
    /// the file's stem, the name to the id, the version to "0.1.0", the author
    /// to "unknown"; whether it is enabled comes from the daemon config
    /// (`plugin_enabled`).
    pub fn from_fields(
        stem: &str,
        id: Option<String>,
        name: Option<String>,
        version: Option<String>,
        author: Option<String>,
        description: Option<String>,
        config: &Settings,
        settings: Vec<SettingDef>,
    ) -> (r: PluginMeta)
        ensures
            r.id@ == (match id {
                Some(s) => s@,
                None => stem@,
            }),
            r.name@ == (match name {
                Some(s) => s@,
                None => r.id@,
            }),
            r.version@ == (match version {
                Some(s) => s@,
                None => "0.1.0"@,
            }),
            r.author@ == (match author {
                Some(s) => s@,
                None => "unknown"@,
            }),
            r.description == description,
            r.enabled == enabled_spec(config@, r.id@),
            r.settings@ == settings@,
    {
        let id = or_default(id, stem);
        let name = match name {
            Some(n) => n,
            None => id.clone(),
        };
        let enabled = plugin_enabled(config, id.as_str());
        PluginMeta {
            id,
            name,
            version: or_default(version, "0.1.0"),
            author: or_default(author, "unknown"),
            description,
            enabled,
            settings,
        }
    }
}

/// The stem of a file name whose extension is `lua`: the part before the last
/// dot, when that dot is not the first character (a name that starts with its
/// only dot has no extension).
pub open spec fn lua_stem(name: Seq<char>) -> Option<Seq<char>> {
    if exists|i: int| 0 < i < name.len() && name[i] == '.' {
        let i = choose|i: int|
            0 < i < name.len() && name[i] == '.' && forall|j: int| i < j < name.len() ==> name[j] != '.';
        if name.skip(i + 1) == "lua"@ {
            Some(name.take(i))
        } else {
            None
        }
    } else {
        None
    }
}

/// The stem of a plugin file name ending in `.lua`; see `lua_stem`.
pub fn lua_file_stem(name: &str) -> (r: Option<String>)
    ensures
        match lua_stem(name@) {
            Some(st) => r matches Some(s) && s@ == st,
            None => r is None,
        },
{
    let c = chars_of(name);
    let n = c.len();
    let mut i: usize = n;
    while i > 0 && !(c[i - 1] == '.')
        invariant
            i <= n == c@.len(),
            forall|j: int| i <= j < n ==> c@[j] != '.',
        decreases i,
    {
        i = i - 1;
    }
    if i <= 1 {
        proof {
            assert forall|k: int| 0 < k < n implies c@[k] != '.' by {
                if i == 1 {
                    assert(k >= 1);
                }
            }
        }
        return None;
    }
    let dot = i - 1;
    proof {
        let k = choose|k: int|
            0 < k < name@.len() && name@[k] == '.' && forall|j: int| k < j < name@.len() ==> name@[j] != '.';
        assert(c@[dot as int] == '.');
        assert(k == dot) by {
            if k < dot {
                assert(name@[dot as int] != '.');
            } else if k > dot {
                assert(c@[k] != '.');
            }
        }
    }
    let ext = copy_range(c.as_slice(), dot + 1, n);
    assert(ext@ =~= c@.skip(dot + 1));
    if chars_eq_str(ext.as_slice(), "lua") {
        let stem = copy_range(c.as_slice(), 0, dot);
        assert(stem@ =~= c@.take(dot as int));
        Some(string_from_chars(stem.as_slice()))
    } else {
        None
    }
}

/// What loading does with a plugin file that evaluated to a table.
#[derive(Clone, Copy, Debug, PartialEq, Eq, Structural)]
pub enum Admission {
    /// Skipped: the plugin has no `process` function; it is neither listed
    /// nor run.
    Skip,
    /// Listed in the manifest but not run: the plugin is disabled.
    ListOnly,
    /// Listed in the manifest and added to the pipeline.
    AddAndList,
}

/// What loading does with a plugin that has (`has_process`) or lacks a
/// `process` function and is `enabled` or not: a plugin without `process` is
/// skipped; every other plugin is listed, and run only when enabled.
pub open spec fn admission(has_process: bool, enabled: bool) -> Admission {
    if !has_process {
        Admission::Skip
    } else if enabled {
        Admission::AddAndList
    } else {
        Admission::ListOnly
    }
}

/// What loading does with a plugin; see `admission`.
pub fn admit_plugin(has_process: bool, enabled: bool) -> (r: Admission)
    ensures
        r == admission(has_process, enabled),
{
    if !has_process {
        Admission::Skip
    } else if enabled {
        Admission::AddAndList
    } else {
        Admission::ListOnly
    }
}

/// Every key and every value of a plugin's own configuration is trimmed:
/// whatever the lines, no entry keeps whitespace around its key or value.
pub proof fn lemma_plugin_config_trimmed(ls: Seq<Seq<char>>)
    ensures
        forall|k: Seq<char>|
            #[trigger] plugin_config_of(ls).contains_key(k) ==> trim(k) == k && trim(
                plugin_config_of(ls)[k],
            ) == plugin_config_of(ls)[k],
    decreases ls.len(),
{
    if ls.len() > 0 {
        let prev = ls.drop_last();
        lemma_plugin_config_trimmed(prev);
        let m = plugin_config_of(prev);
        match split_once(ls.last(), '=') {
            Some((k, v)) => {
                crate::text::lemma_trim_idempotent(k);
                crate::text::lemma_trim_idempotent(v);
                assert(plugin_config_of(ls) == m.insert(trim(k), trim(v)));
                assert forall|x: Seq<char>| #[trigger] plugin_config_of(ls).contains_key(x) implies trim(x)
                    == x && trim(plugin_config_of(ls)[x]) == plugin_config_of(ls)[x] by {
                    if x != trim(k) {
                        assert(m.contains_key(x));
                    }
                }
            },
            None => {
                assert(plugin_config_of(ls) == m);
            },
        }
    }
}

/// A line with `=` sets the key before the first `=` (trimmed) to the text
/// after it (trimmed); a later line for the same key wins.
pub proof fn lemma_plugin_config_last_line(ls: Seq<Seq<char>>, k: Seq<char>, v: Seq<char>)
    requires
        ls.len() > 0,
        split_once(ls.last(), '=') == Some((k, v)),
    ensures
        plugin_config_of(ls).contains_key(trim(k)),
        plugin_config_of(ls)[trim(k)] == trim(v),
{
}

} // verus!
