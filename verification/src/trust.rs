//! Workspace trust. A project-local config can spawn servers, redirect
//! providers or grant tools, so its security-relevant keys apply only once
//! the user has opted the project in. The opted-in project directories are
//! kept as the `trusted` array of `~/.rocinante/trust.toml`.
use vstd::prelude::*;

use crate::model::opt_view;
use crate::paths::{join_path, joined};
use crate::text::str_eq;

verus! {

/// What `toml::from_str` makes of a document, read as the array under
/// `key`, each item as text where it is a string.
pub uninterp spec fn toml_items_of(text: Seq<char>, key: Seq<char>) -> Option<Seq<Option<Seq<char>>>>;

/// The text `toml::to_string` gives for a document whose one key `key`
/// holds the given strings.
pub uninterp spec fn array_document_of(key: Seq<char>, list: Seq<Seq<char>>) -> Seq<char>;

/// The key of the trust store's list.
pub const TRUSTED_KEY: &'static str = "trusted";

/// The trust store's text for a list of trusted projects.
pub open spec fn trusted_document_of(list: Seq<Seq<char>>) -> Seq<char> {
    array_document_of(TRUSTED_KEY@, list)
}

pub open spec fn opt_views(v: Seq<Option<String>>) -> Seq<Option<Seq<char>>> {
    v.map_values(|o: Option<String>| opt_view(o))
}

pub open spec fn str_views(v: Seq<String>) -> Seq<Seq<char>> {
    v.map_values(|s: String| s@)
}

/// Parse `text` with `toml::from_str` into a `toml::Value`, take the array
/// under `key`, and give each item as a string when it is one. `None` when
/// the text is not TOML, has no such key, or the key holds no array. The
/// contract names the result; what TOML parsing accepts is not restated.
#[verifier::external_body]
fn toml_string_items(text: &str, key: &str) -> (r: Option<Vec<Option<String>>>)
    ensures
        match r {
            Some(v) => toml_items_of(text@, key@) == Some(opt_views(v@)),
            None => toml_items_of(text@, key@) is None,
        },
{
    let doc = toml::from_str::<toml::Value>(text).ok()?;
    let items = doc.get(key)?.as_array()?;
    Some(items.iter().map(|v| v.as_str().map(String::from)).collect())
}

/// Each text as a string item.
pub open spec fn as_items(list: Seq<Seq<char>>) -> Seq<Option<Seq<char>>> {
    list.map_values(|s: Seq<char>| Some(s))
}

/// `toml::to_string` of the `toml::Value` built from a map whose one key
/// `key` holds `list`. Serialising strings cannot fail; the text is
/// named, not restated. `toml::from_str` reads the text back: the key
/// holds the same strings in the same order.
#[verifier::external_body]
fn array_document(key: &str, list: &Vec<String>) -> (r: String)
    ensures
        r@ == array_document_of(key@, str_views(list@)),
        toml_items_of(r@, key@) == Some(as_items(str_views(list@))),
{
    let map = std::collections::BTreeMap::from([(key.to_string(), list.clone())]);
    let doc = toml::Value::try_from(map).expect("a list of strings serializes");
    toml::to_string(&doc).expect("a table serializes")
}

/// The strings among the items, in order.
pub open spec fn strings_of(items: Seq<Option<Seq<char>>>) -> Seq<Seq<char>>
    decreases items.len(),
{
    if items.len() == 0 {
        Seq::empty()
    } else {
        let r = strings_of(items.drop_last());
        match items.last() {
            Some(s) => r.push(s),
            None => r,
        }
    }
}

proof fn lemma_strings_of_items(list: Seq<Seq<char>>)
    ensures
        strings_of(as_items(list)) == list,
    decreases list.len(),
{
    if list.len() > 0 {
        assert(as_items(list).drop_last() =~= as_items(list.drop_last()));
        lemma_strings_of_items(list.drop_last());
        assert(list.drop_last().push(list.last()) =~= list);
    } else {
        assert(as_items(list) =~= Seq::<Option<Seq<char>>>::empty());
    }
}

/// The trusted project keys recorded in the store's text; a missing or
/// unreadable store trusts nothing.
pub open spec fn trusted_from(store: Option<Seq<char>>) -> Seq<Seq<char>> {
    match store {
        Some(t) => match toml_items_of(t, TRUSTED_KEY@) {
            Some(items) => strings_of(items),
            None => Seq::empty(),
        },
        None => Seq::empty(),
    }
}

/// The trusted project keys of the store (see `trusted_from`).
pub fn trusted_list(store: Option<&str>) -> (r: Vec<String>)
    ensures
        str_views(r@) == trusted_from(
            match store {
                Some(t) => Some(t@),
                None => None,
            },
        ),
{
    let mut r: Vec<String> = Vec::new();
    match store {
        None => {
            assert(str_views(r@) =~= Seq::<Seq<char>>::empty());
            r
        },
        Some(t) => match toml_string_items(t, TRUSTED_KEY) {
            None => {
                assert(str_views(r@) =~= Seq::<Seq<char>>::empty());
                r
            },
            Some(items) => {
                let ghost iv = opt_views(items@);
                let mut i: usize = 0;
                while i < items.len()
                    invariant
                        i <= items@.len(),
                        iv == opt_views(items@),
                        str_views(r@) =~= strings_of(iv.take(i as int)),
                    decreases items@.len() - i,
                {
                    proof {
                        assert(iv.take(i + 1).drop_last() =~= iv.take(i as int));
                        assert(iv.take(i + 1).last() == opt_view(items@[i as int]));
                    }
                    match &items[i] {
                        Some(s) => {
                            let ghost before = r@;
                            r.push(s.clone());
                            assert(str_views(r@) =~= str_views(before).push(s@));
                        },
                        None => {},
                    }
                    i = i + 1;
                }
                assert(iv.take(items@.len() as int) =~= iv);
                r
            },
        },
    }
}

fn contains_str(list: &Vec<String>, key: &str) -> (r: bool)
    ensures
        r == str_views(list@).contains(key@),
{
    let ghost lv = str_views(list@);
    let mut i: usize = 0;
    while i < list.len()
        invariant
            i <= list@.len(),
            lv == str_views(list@),
            forall|j: int| 0 <= j < i ==> lv[j] != key@,
        decreases list@.len() - i,
    {
        if str_eq(list[i].as_str(), key) {
            assert(lv[i as int] == key@);
            return true;
        }
        i = i + 1;
    }
    false
}

/// Has the user opted the project with this key into its full config?
/// `store` is the text of the trust store, when it could be read.
pub fn is_trusted(store: Option<&str>, key: &str) -> (r: bool)
    ensures
        r == trusted_from(
            match store {
                Some(t) => Some(t@),
                None => None,
            },
        ).contains(key@),
{
    let list = trusted_list(store);
    contains_str(&list, key)
}

/// The new trust store that opts the project with this key in: `None` when
/// it is already trusted (trusting is idempotent), else the document of the
/// recorded keys followed by this one, which reads back as exactly that
/// list: once written, the project is trusted.
pub fn trust_document(store: Option<&str>, key: &str) -> (r: Option<String>)
    ensures
        ({
            let before = trusted_from(
                match store {
                    Some(t) => Some(t@),
                    None => None,
                },
            );
            match r {
                None => before.contains(key@),
                Some(d) => !before.contains(key@) && d@ == trusted_document_of(before.push(key@))
                    && trusted_from(Some(d@)) == before.push(key@)
                    && trusted_from(Some(d@)).contains(key@),
            }
        }),
{
    let mut list = trusted_list(store);
    if contains_str(&list, key) {
        return None;
    }
    let ghost before = list@;
    list.push(key.to_string());
    assert(str_views(list@) =~= str_views(before).push(key@));
    let d = array_document(TRUSTED_KEY, &list);
    proof {
        lemma_strings_of_items(str_views(list@));
        assert(str_views(list@)[str_views(list@).len() - 1] == key@);
    }
    Some(d)
}

/// Where the trust store lives, under the home directory; `None` when the
/// home directory is unknown.
pub fn trust_store_path(home: Option<&str>) -> (r: Option<String>)
    ensures
        match home {
            Some(h) => r.is_some() && r.unwrap()@ == joined(h@, ".rocinante/trust.toml"@),
            None => r.is_none(),
        },
{
    match home {
        Some(h) => Some(join_path(h, ".rocinante/trust.toml")),
        None => None,
    }
}

// ---------------------------------------------------------------------------
// Untrusted project configs
// ---------------------------------------------------------------------------

#[verifier::external_type_specification]
#[verifier::external_body]
pub struct ExTomlValue(toml::Value);

/// One entry of a TOML document's top-level table: a table, with each of
/// its keys and the text (`Display` of `toml::Value`) of the value under
/// it, or any other value, by its text.
pub enum TomlEntry {
    Table(Map<Seq<char>, Seq<char>>),
    Value(Seq<char>),
}

/// A TOML document's top-level table, entry by entry.
pub type TomlDoc = Map<Seq<char>, TomlEntry>;

/// The entries of a `toml::Value` that is a table (none for any other
/// value).
pub uninterp spec fn toml_doc(v: toml::Value) -> Map<Seq<char>, TomlEntry>;

/// The text `toml::to_string` gives for a value, when it serialises.
pub uninterp spec fn toml_text(v: toml::Value) -> Option<Seq<char>>;

/// The document `toml::from_str` makes of `text`, when it parses.
pub uninterp spec fn toml_parsed(text: Seq<char>) -> Option<Map<Seq<char>, TomlEntry>>;

/// `toml::from_str::<toml::Value>`: the document in `text`, or `None` when
/// it is not TOML. Which texts parse, and to what, is named, not restated.
#[verifier::external_body]
fn parse_toml(text: &str) -> (r: Option<toml::Value>)
    ensures
        match r {
            Some(v) => toml_parsed(text@) == Some(toml_doc(v)),
            None => toml_parsed(text@) is None,
        },
{
    toml::from_str::<toml::Value>(text).ok()
}

/// `Value::as_table_mut` then `Map::remove`: drop `key` from the table
/// `v` is; whether it was there.
#[verifier::external_body]
fn remove_key(v: &mut toml::Value, key: &str) -> (r: bool)
    ensures
        r == toml_doc(*old(v)).contains_key(key@),
        toml_doc(*final(v)) == toml_doc(*old(v)).remove(key@),
{
    match v.as_table_mut() {
        Some(t) => t.remove(key).is_some(),
        None => false,
    }
}

/// Whether the value under `table` is a table holding `key`.
pub open spec fn has_nested(m: TomlDoc, table: Seq<char>, key: Seq<char>) -> bool {
    m.contains_key(table) && (m[table] matches TomlEntry::Table(inner) && inner.contains_key(key))
}

/// `m` with `key` gone from the table under `table`.
pub open spec fn without_nested(m: TomlDoc, table: Seq<char>, key: Seq<char>) -> TomlDoc {
    if has_nested(m, table, key) {
        m.insert(table, TomlEntry::Table(m[table]->Table_0.remove(key)))
    } else {
        m
    }
}

/// `Value::get_mut(table)`, `Value::as_table_mut` and `Map::remove`: drop
/// `key` from the table under `table`; whether it was there.
#[verifier::external_body]
fn remove_nested_key(v: &mut toml::Value, table: &str, key: &str) -> (r: bool)
    ensures
        r == has_nested(toml_doc(*old(v)), table@, key@),
        toml_doc(*final(v)) == without_nested(toml_doc(*old(v)), table@, key@),
{
    match v.get_mut(table) {
        Some(t) => match t.as_table_mut() {
            Some(m) => m.remove(key).is_some(),
            None => false,
        },
        None => false,
    }
}

/// `toml::to_string` of a value; `None` when it does not serialise (a
/// value that is no table does not). `toml::from_str` reads the text back
/// to the same entries.
#[verifier::external_body]
fn toml_to_string(v: &toml::Value) -> (r: Option<String>)
    ensures
        match r {
            Some(s) => toml_text(*v) == Some(s@) && toml_parsed(s@) == Some(toml_doc(*v)),
            None => toml_text(*v) is None,
        },
{
    toml::to_string(v).ok()
}

/// The tables an untrusted project config loses whole: they spawn servers,
/// redirect providers, grant tools, or run a shell command.
pub open spec fn strip_tables() -> Seq<Seq<char>> {
    seq!["providers"@, "mcp"@, "lsp"@, "agents"@, "verification"@]
}

/// The nested keys it loses: `permissions.allow` grants, `skills.extra_dirs`
/// loads instructions from anywhere, `defaults.mode` could force `auto`.
pub open spec fn strip_nested() -> Seq<(Seq<char>, Seq<char>)> {
    seq![("permissions"@, "allow"@), ("skills"@, "extra_dirs"@), ("defaults"@, "mode"@)]
}

/// The names of `names` found as each is removed in turn.
pub open spec fn present_tables(m: TomlDoc, names: Seq<Seq<char>>) -> Seq<Seq<char>>
    decreases names.len(),
{
    if names.len() == 0 {
        Seq::empty()
    } else {
        let r = present_tables(m, names.drop_last());
        if without_tables(m, names.drop_last()).contains_key(names.last()) {
            r.push(names.last())
        } else {
            r
        }
    }
}

pub open spec fn without_tables(m: TomlDoc, names: Seq<Seq<char>>) -> TomlDoc
    decreases names.len(),
{
    if names.len() == 0 {
        m
    } else {
        without_tables(m, names.drop_last()).remove(names.last())
    }
}

/// `table.key` for each nested key found as each is removed in turn.
pub open spec fn present_nested(m: TomlDoc, keys: Seq<(Seq<char>, Seq<char>)>) -> Seq<Seq<char>>
    decreases keys.len(),
{
    if keys.len() == 0 {
        Seq::empty()
    } else {
        let r = present_nested(m, keys.drop_last());
        let (t, k) = keys.last();
        if has_nested(without_nested_all(m, keys.drop_last()), t, k) {
            r.push(t + "."@ + k)
        } else {
            r
        }
    }
}

pub open spec fn without_nested_all(m: TomlDoc, keys: Seq<(Seq<char>, Seq<char>)>) -> TomlDoc
    decreases keys.len(),
{
    if keys.len() == 0 {
        m
    } else {
        let (t, k) = keys.last();
        without_nested(without_nested_all(m, keys.drop_last()), t, k)
    }
}

/// What an untrusted project config keeps.
pub open spec fn sanitized_doc(m: TomlDoc) -> TomlDoc {
    without_nested_all(without_tables(m, strip_tables()), strip_nested())
}

/// What it loses, in order: the whole tables, then the nested keys.
pub open spec fn dropped_keys(m: TomlDoc) -> Seq<Seq<char>> {
    present_tables(m, strip_tables()) + present_nested(without_tables(m, strip_tables()), strip_nested())
}

pub const UNPARSEABLE_NOTE: &'static str = "<unparseable project config — ignored>";

pub const UNSERIALISABLE_NOTE: &'static str = "<project config — ignored>";

/// The sanitised text of an untrusted project config and what was
/// dropped: a text that is not TOML is ignored whole; else the dangerous
/// keys go (see `strip_tables`, `strip_nested`) and the rest is written
/// back, or, should that fail, ignored whole. The text written back reads
/// as the parsed input without those keys, every other entry and value
/// as it was.
pub open spec fn sanitize_spec(raw: Seq<char>, text: Seq<char>, dropped: Seq<Seq<char>>) -> bool {
    match toml_parsed(raw) {
        None => text.len() == 0 && dropped == seq![UNPARSEABLE_NOTE@],
        Some(m) => exists|v: toml::Value|
            #![trigger toml_doc(v)]
            toml_doc(v) == sanitized_doc(m) && match toml_text(v) {
                Some(t) => text == t && toml_parsed(text) == Some(sanitized_doc(m)) && dropped
                    == dropped_keys(m),
                None => text.len() == 0 && dropped == seq![UNSERIALISABLE_NOTE@],
            },
    }
}

/// Strip the security-relevant keys from an untrusted project config (see
/// `sanitize_spec`).
pub fn sanitize_untrusted_project(raw: &str) -> (r: (String, Vec<String>))
    ensures
        sanitize_spec(raw@, r.0@, str_views(r.1@)),
{
    let mut value = match parse_toml(raw) {
        Some(v) => v,
        None => {
            let mut d: Vec<String> = Vec::new();
            d.push(UNPARSEABLE_NOTE.to_string());
            assert(str_views(d@) =~= seq![UNPARSEABLE_NOTE@]);
            return (String::new(), d);
        },
    };
    let ghost m = toml_doc(value);
    let tables: [&str; 5] = ["providers", "mcp", "lsp", "agents", "verification"];
    let ghost tv = strip_tables();
    assert(tables@.map_values(|s: &str| s@) =~= tv) by {
        reveal_strlit("providers");
        reveal_strlit("mcp");
        reveal_strlit("lsp");
        reveal_strlit("agents");
        reveal_strlit("verification");
    }
    let mut dropped: Vec<String> = Vec::new();
    let mut i: usize = 0;
    while i < 5
        invariant
            i <= 5,
            tables@.map_values(|s: &str| s@) == tv,
            tv == strip_tables(),
            toml_doc(value) == without_tables(m, tv.take(i as int)),
            str_views(dropped@) == present_tables(m, tv.take(i as int)),
        decreases 5 - i,
    {
        let key = tables[i];
        assert(tv[i as int] == key@);
        assert(tv.take(i + 1).drop_last() =~= tv.take(i as int));
        let ghost before = str_views(dropped@);
        if remove_key(&mut value, key) {
            dropped.push(key.to_string());
            assert(str_views(dropped@) =~= before.push(key@));
        }
        i = i + 1;
    }
    assert(tv.take(5) =~= tv);
    let ghost mid = toml_doc(value);
    let ghost base = str_views(dropped@);
    let ghost nv = strip_nested();
    assert(nv.take(0) =~= Seq::<(Seq<char>, Seq<char>)>::empty());
    let nested: [(&str, &str, &str); 3] = [
        ("permissions", "allow", "permissions.allow"),
        ("skills", "extra_dirs", "skills.extra_dirs"),
        ("defaults", "mode", "defaults.mode"),
    ];
    assert(nested@.map_values(|p: (&str, &str, &str)| (p.0@, p.1@)) =~= nv && forall|j: int|
        0 <= j < 3 ==> #[trigger] nested@[j].2@ == nested@[j].0@ + "."@ + nested@[j].1@) by {
        reveal_strlit("permissions");
        reveal_strlit("allow");
        reveal_strlit("permissions.allow");
        reveal_strlit("skills");
        reveal_strlit("extra_dirs");
        reveal_strlit("skills.extra_dirs");
        reveal_strlit("defaults");
        reveal_strlit("mode");
        reveal_strlit("defaults.mode");
        reveal_strlit(".");
    }
    let mut k: usize = 0;
    while k < 3
        invariant
            k <= 3,
            nested@.map_values(|p: (&str, &str, &str)| (p.0@, p.1@)) == nv,
            forall|j: int| 0 <= j < 3 ==> #[trigger] nested@[j].2@ == nested@[j].0@ + "."@ + nested@[j].1@,
            nv == strip_nested(),
            toml_doc(value) == without_nested_all(mid, nv.take(k as int)),
            str_views(dropped@) == base + present_nested(mid, nv.take(k as int)),
        decreases 3 - k,
    {
        let (t, key, label) = nested[k];
        assert(nv[k as int] == (t@, key@));
        assert(nv.take(k + 1).drop_last() =~= nv.take(k as int));
        let ghost before = str_views(dropped@);
        if remove_nested_key(&mut value, t, key) {
            dropped.push(label.to_string());
            assert(str_views(dropped@) =~= before.push(t@ + "."@ + key@));
        }
        k = k + 1;
    }
    assert(nv.take(3) =~= nv);
    assert(toml_doc(value) == sanitized_doc(m));
    match toml_to_string(&value) {
        Some(s) => {
            assert(str_views(dropped@) == dropped_keys(m));
            (s, dropped)
        },
        None => {
            let mut d: Vec<String> = Vec::new();
            d.push(UNSERIALISABLE_NOTE.to_string());
            assert(str_views(d@) =~= seq![UNSERIALISABLE_NOTE@]);
            (String::new(), d)
        },
    }
}

} // verus!
