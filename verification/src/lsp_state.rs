//! What the language-server client remembers between requests: the
//! version of each document it has synced, and the diagnostics last
//! published for each document with a counter of publishes. A wait for
//! diagnostics accepts only a publish that reflects the edit it waits on:
//! stale results taken for "my edit failed" are worse than none.
use vstd::prelude::*;

use crate::model::copy_string;
use crate::positions::{diag_views, DiagView, Diagnostic};
use crate::text::str_eq;

verus! {

/// The first entry under `key`.
pub open spec fn lookup<V>(entries: Seq<(Seq<char>, V)>, key: Seq<char>) -> Option<V>
    decreases entries.len(),
{
    if entries.len() == 0 {
        None
    } else if entries[0].0 == key {
        Some(entries[0].1)
    } else {
        lookup(entries.drop_first(), key)
    }
}

/// `entries` with the first entry under `key` replaced by `value`, or
/// `value` added at the end when there is none.
pub open spec fn upsert<V>(entries: Seq<(Seq<char>, V)>, key: Seq<char>, value: V) -> Seq<(Seq<char>, V)>
    decreases entries.len(),
{
    if entries.len() == 0 {
        seq![(key, value)]
    } else if entries[0].0 == key {
        entries.update(0, (key, value))
    } else {
        seq![entries[0]] + upsert(entries.drop_first(), key, value)
    }
}

/// After `upsert`, `key` reads back `value` and every other key reads as
/// before.
pub proof fn law_upsert_read_back<V>(entries: Seq<(Seq<char>, V)>, key: Seq<char>, value: V, other: Seq<char>)
    ensures
        lookup(upsert(entries, key, value), key) == Some(value),
        other != key ==> lookup(upsert(entries, key, value), other) == lookup(entries, other),
    decreases entries.len(),
{
    if entries.len() == 0 {
        assert(seq![(key, value)][0] == (key, value));
        assert(seq![(key, value)].drop_first() =~= Seq::<(Seq<char>, V)>::empty());
        if other != key {
            assert(lookup(seq![(key, value)], other) == lookup(Seq::<(Seq<char>, V)>::empty(), other));
        }
    } else if entries[0].0 == key {
        let u = entries.update(0, (key, value));
        assert(u[0] == (key, value));
        assert(u.drop_first() =~= entries.drop_first());
        if other != key {
            assert(lookup(u, other) == lookup(u.drop_first(), other));
            assert(lookup(entries, other) == lookup(entries.drop_first(), other));
        }
    } else {
        let rest = upsert(entries.drop_first(), key, value);
        let all = seq![entries[0]] + rest;
        assert(upsert(entries, key, value) == all);
        assert(all[0] == entries[0]);
        assert(all.drop_first() =~= rest);
        law_upsert_read_back(entries.drop_first(), key, value, other);
        if other != key {
            if entries[0].0 == other {
                assert(lookup(all, other) == Some(entries[0].1));
            } else {
                assert(lookup(all, other) == lookup(rest, other));
            }
        }
    }
}

/// Where the first entry under `key` is.
fn position_of<V>(entries: &Vec<(String, V)>, key: &str) -> (r: Option<usize>)
    ensures
        match r {
            Some(i) => i < entries@.len() && entries@[i as int].0@ == key@ && forall|j: int|
                0 <= j < i ==> (#[trigger] entries@[j]).0@ != key@,
            None => forall|j: int| 0 <= j < entries@.len() ==> (#[trigger] entries@[j]).0@ != key@,
        },
{
    let mut i: usize = 0;
    while i < entries.len()
        invariant
            i <= entries@.len(),
            forall|j: int| 0 <= j < i ==> (#[trigger] entries@[j]).0@ != key@,
        decreases entries@.len() - i,
    {
        if str_eq(entries[i].0.as_str(), key) {
            return Some(i);
        }
        i = i + 1;
    }
    None
}

/// Where the first entry under `key` is, if anywhere.
pub open spec fn first_at<W>(vs: Seq<(Seq<char>, W)>, key: Seq<char>, at: Option<int>) -> bool {
    match at {
        Some(i) => 0 <= i < vs.len() && vs[i].0 == key && forall|j: int| 0 <= j < i ==> (#[trigger] vs[j]).0 != key,
        None => forall|j: int| 0 <= j < vs.len() ==> (#[trigger] vs[j]).0 != key,
    }
}

proof fn lemma_lookup_at<W>(vs: Seq<(Seq<char>, W)>, key: Seq<char>, at: Option<int>)
    requires
        first_at(vs, key, at),
    ensures
        lookup(vs, key) == match at {
            Some(i) => Some(vs[i].1),
            None => None,
        },
    decreases vs.len(),
{
    if vs.len() > 0 && vs[0].0 != key {
        let next = match at {
            Some(i) => Some(i - 1),
            None => None,
        };
        let t = vs.drop_first();
        assert forall|j: int| 0 <= j < t.len() && (match at {
            Some(i) => j < i - 1,
            None => true,
        }) implies (#[trigger] t[j]).0 != key by {
            assert(t[j] == vs[j + 1]);
        }
        lemma_lookup_at(t, key, next);
    }
}

proof fn lemma_upsert_at<W>(vs: Seq<(Seq<char>, W)>, key: Seq<char>, value: W, at: Option<int>)
    requires
        first_at(vs, key, at),
    ensures
        upsert(vs, key, value) == match at {
            Some(i) => vs.update(i, (key, value)),
            None => vs.push((key, value)),
        },
    decreases vs.len(),
{
    if vs.len() == 0 {
        assert(seq![(key, value)] =~= vs.push((key, value)));
    } else if vs[0].0 != key {
        let next = match at {
            Some(i) => Some(i - 1),
            None => None,
        };
        let t = vs.drop_first();
        assert forall|j: int| 0 <= j < t.len() && (match at {
            Some(i) => j < i - 1,
            None => true,
        }) implies (#[trigger] t[j]).0 != key by {
            assert(t[j] == vs[j + 1]);
        }
        lemma_upsert_at(t, key, value, next);
        match at {
            Some(i) => {
                assert(seq![vs[0]] + t.update(i - 1, (key, value)) =~= vs.update(i, (key, value)));
            },
            None => {
                assert(seq![vs[0]] + t.push((key, value)) =~= vs.push((key, value)));
            },
        }
    } else {
        assert(at == Some(0int));
    }
}

pub open spec fn version_entries(e: Seq<(String, i32)>) -> Seq<(Seq<char>, i32)> {
    e.map_values(|x: (String, i32)| (x.0@, x.1))
}

pub open spec fn published_entries(e: Seq<(String, Published)>) -> Seq<(Seq<char>, PublishedView)> {
    e.map_values(|x: (String, Published)| (x.0@, published_view(x.1)))
}

fn at_of(r: Option<usize>) -> (g: Ghost<Option<int>>)
    ensures
        g@ == match r {
            Some(i) => Some(i as int),
            None => None::<int>,
        },
{
    Ghost(
        match r {
            Some(i) => Some(i as int),
            None => None,
        },
    )
}

// ---------------------------------------------------------------------------
// Document versions
// ---------------------------------------------------------------------------

/// The version of each synced document, by URI.
pub struct DocVersions {
    entries: Vec<(String, i32)>,
}

/// What a sync tells the server: the first sync of a document opens it,
/// later ones replace its text.
#[derive(Debug, Clone, Copy, PartialEq, Eq, Structural)]
pub enum SyncKind {
    Open,
    Change,
}

impl DocVersions {
    /// The versions as URI and number.
    pub closed spec fn view_entries(&self) -> Seq<(Seq<char>, i32)> {
        version_entries(self.entries@)
    }

    /// The version last given to `uri` (0 before its first sync).
    pub open spec fn version_of(&self, uri: Seq<char>) -> i32 {
        match lookup(self.view_entries(), uri) {
            Some(v) => v,
            None => 0,
        }
    }

    pub fn new() -> (r: DocVersions)
        ensures
            r.view_entries() == Seq::<(Seq<char>, i32)>::empty(),
    {
        let r = DocVersions { entries: Vec::new() };
        assert(r.view_entries() =~= Seq::<(Seq<char>, i32)>::empty());
        r
    }

    /// Give `uri` its next version: one more than before (wrapping, as
    /// release arithmetic does); version 1 opens the document.
    pub fn bump(&mut self, uri: &str) -> (r: (i32, SyncKind))
        ensures
            r.0 == old(self).version_of(uri@).wrapping_add(1),
            r.1 == (if r.0 == 1 {
                SyncKind::Open
            } else {
                SyncKind::Change
            }),
            final(self).view_entries() == upsert(old(self).view_entries(), uri@, r.0),
    {
        let ghost vs = version_entries(self.entries@);
        let at = position_of(&self.entries, uri);
        let g = at_of(at);
        proof {
            assert forall|j: int| 0 <= j < vs.len() implies (#[trigger] vs[j]).0 == self.entries@[j].0@ by {}
            assert(first_at(vs, uri@, g@));
            lemma_lookup_at(vs, uri@, g@);
            lemma_upsert_at(vs, uri@, match at {
                Some(i) => self.entries@[i as int].1.wrapping_add(1),
                None => 1i32,
            }, g@);
        }
        let v = match at {
            Some(i) => self.entries[i].1.wrapping_add(1),
            None => 1,
        };
        match at {
            Some(i) => {
                self.entries.set(i, (uri.to_string(), v));
                assert(version_entries(self.entries@) =~= vs.update(i as int, (uri@, v)));
            },
            None => {
                self.entries.push((uri.to_string(), v));
                assert(version_entries(self.entries@) =~= vs.push((uri@, v)));
            },
        }
        let kind = if v == 1 {
            SyncKind::Open
        } else {
            SyncKind::Change
        };
        (v, kind)
    }
}

// ---------------------------------------------------------------------------
// Published diagnostics
// ---------------------------------------------------------------------------

/// One publish: the document version it reflects (servers may omit it),
/// the diagnostics, and the publish counter when it arrived.
pub struct Published {
    pub version: Option<i32>,
    pub diagnostics: Vec<Diagnostic>,
    pub generation: u64,
}

pub struct PublishedView {
    pub version: Option<i32>,
    pub diagnostics: Seq<DiagView>,
    pub generation: u64,
}

pub open spec fn published_view(p: Published) -> PublishedView {
    PublishedView { version: p.version, diagnostics: diag_views(p.diagnostics@), generation: p.generation }
}

/// The last publish for each document, and how many publishes there were.
pub struct DiagnosticsStore {
    entries: Vec<(String, Published)>,
    generation: u64,
}

/// Whether a publish answers a wait for document version `min_version`
/// begun at publish count `since`: a versioned publish must reflect at
/// least that version, an unversioned one must have come after `since`;
/// with `distrust_empty` (a document's first sync, when the server may
/// still be indexing) an empty set answers nothing.
pub open spec fn acceptable(p: PublishedView, min_version: i32, since: u64, distrust_empty: bool) -> bool {
    (match p.version {
        Some(v) => v >= min_version,
        None => p.generation > since,
    }) && !(distrust_empty && p.diagnostics.len() == 0)
}

fn copy_diags(v: &Vec<Diagnostic>) -> (r: Vec<Diagnostic>)
    ensures
        diag_views(r@) == diag_views(v@),
{
    let mut r: Vec<Diagnostic> = Vec::new();
    let mut i: usize = 0;
    while i < v.len()
        invariant
            i <= v@.len(),
            diag_views(r@) =~= diag_views(v@).take(i as int),
        decreases v@.len() - i,
    {
        let d = &v[i];
        r.push(Diagnostic { line: d.line, character: d.character, severity: d.severity, message: copy_string(&d.message) });
        assert(diag_views(v@).take(i + 1) =~= diag_views(v@).take(i as int).push(v@[i as int]@));
        i = i + 1;
    }
    assert(diag_views(v@).take(v@.len() as int) =~= diag_views(v@));
    r
}

impl DiagnosticsStore {
    /// The last publish of each document, by URI.
    pub closed spec fn view_entries(&self) -> Seq<(Seq<char>, PublishedView)> {
        published_entries(self.entries@)
    }

    pub closed spec fn count(&self) -> u64 {
        self.generation
    }

    pub open spec fn published(&self, uri: Seq<char>) -> Option<PublishedView> {
        lookup(self.view_entries(), uri)
    }

    pub fn new() -> (r: DiagnosticsStore)
        ensures
            r.view_entries() == Seq::<(Seq<char>, PublishedView)>::empty(),
            r.count() == 0,
    {
        let r = DiagnosticsStore { entries: Vec::new(), generation: 0 };
        assert(r.view_entries() =~= Seq::<(Seq<char>, PublishedView)>::empty());
        r
    }

    /// How many publishes there were; taken before a change, it tells
    /// later publishes from earlier ones.
    pub fn generation(&self) -> (r: u64)
        ensures
            r == self.count(),
    {
        self.generation
    }

    /// Record a publish for `uri`, replacing the last one; the counter
    /// goes up by one and the publish carries it.
    pub fn update(&mut self, uri: &str, version: Option<i32>, diagnostics: Vec<Diagnostic>)
        requires
            old(self).count() < u64::MAX,
        ensures
            final(self).count() == old(self).count() + 1,
            final(self).view_entries() == upsert(
                old(self).view_entries(),
                uri@,
                PublishedView { version, diagnostics: diag_views(diagnostics@), generation: final(self).count() },
            ),
    {
        let ghost vs = published_entries(self.entries@);
        self.generation = self.generation + 1;
        let g = self.generation;
        let ghost pv = PublishedView { version, diagnostics: diag_views(diagnostics@), generation: g };
        let p = Published { version, diagnostics, generation: g };
        assert(published_view(p) == pv);
        let at = position_of(&self.entries, uri);
        let ga = at_of(at);
        proof {
            assert forall|j: int| 0 <= j < vs.len() implies (#[trigger] vs[j]).0 == self.entries@[j].0@ by {}
            assert(first_at(vs, uri@, ga@));
            lemma_upsert_at(vs, uri@, pv, ga@);
        }
        match at {
            Some(i) => {
                self.entries.set(i, (uri.to_string(), p));
                assert(published_entries(self.entries@) =~= vs.update(i as int, (uri@, pv)));
            },
            None => {
                self.entries.push((uri.to_string(), p));
                assert(published_entries(self.entries@) =~= vs.push((uri@, pv)));
            },
        }
    }

    /// The last published diagnostics for `uri`, fresh or not.
    pub fn get(&self, uri: &str) -> (r: Option<Vec<Diagnostic>>)
        ensures
            match self.published(uri@) {
                Some(p) => r matches Some(d) && diag_views(d@) == p.diagnostics,
                None => r is None,
            },
    {
        let ghost vs = published_entries(self.entries@);
        let at = position_of(&self.entries, uri);
        let ga = at_of(at);
        proof {
            assert forall|j: int| 0 <= j < vs.len() implies (#[trigger] vs[j]).0 == self.entries@[j].0@ by {}
            assert(first_at(vs, uri@, ga@));
            lemma_lookup_at(vs, uri@, ga@);
        }
        match at {
            Some(i) => Some(copy_diags(&self.entries[i].1.diagnostics)),
            None => None,
        }
    }

    /// The diagnostics for `uri` when its last publish answers the wait
    /// (see `acceptable`).
    pub fn fresh(&self, uri: &str, min_version: i32, since: u64, distrust_empty: bool) -> (r: Option<Vec<Diagnostic>>)
        ensures
            match self.published(uri@) {
                Some(p) => if acceptable(p, min_version, since, distrust_empty) {
                    r matches Some(d) && diag_views(d@) == p.diagnostics
                } else {
                    r is None
                },
                None => r is None,
            },
    {
        let ghost vs = published_entries(self.entries@);
        let at = position_of(&self.entries, uri);
        let ga = at_of(at);
        proof {
            assert forall|j: int| 0 <= j < vs.len() implies (#[trigger] vs[j]).0 == self.entries@[j].0@ by {}
            assert(first_at(vs, uri@, ga@));
            lemma_lookup_at(vs, uri@, ga@);
        }
        match at {
            Some(i) => {
                let p = &self.entries[i].1;
                let ok = match p.version {
                    Some(v) => v >= min_version,
                    None => p.generation > since,
                };
                if ok && !(distrust_empty && p.diagnostics.len() == 0) {
                    Some(copy_diags(&p.diagnostics))
                } else {
                    None
                }
            },
            None => None,
        }
    }
}

/// A publish read back: right after `update(uri, ..)`, `uri` holds that
/// publish with the new count, every other document keeps its own, and a
/// wait for the version it carries is answered by it.
pub proof fn law_publish_read_back(
    before: Seq<(Seq<char>, PublishedView)>,
    uri: Seq<char>,
    p: PublishedView,
    other: Seq<char>,
    since: u64,
)
    requires
        p.generation > since,
    ensures
        lookup(upsert(before, uri, p), uri) == Some(p),
        other != uri ==> lookup(upsert(before, uri, p), other) == lookup(before, other),
        p.version is Some ==> acceptable(p, p.version.unwrap(), since, false),
        p.version is None ==> acceptable(p, i32::MAX, since, false),
{
    law_upsert_read_back(before, uri, p, other);
}

// ---------------------------------------------------------------------------
// Running servers
// ---------------------------------------------------------------------------

/// Most language servers running at once.
pub const MAX_CLIENTS: usize = 4;

/// Which client serves a file's server and project root.
#[derive(Debug, Clone, Copy, PartialEq, Eq, Structural)]
pub enum ClientChoice {
    /// The one already running for this server and root, at this index.
    Reuse(usize),
    /// None runs yet and there is room: start one.
    Spawn,
    /// None runs and the cap is reached: go without.
    Full,
}

pub open spec fn key_views(v: Seq<(String, String)>) -> Seq<(Seq<char>, Seq<char>)> {
    v.map_values(|k: (String, String)| (k.0@, k.1@))
}

/// One client per server and root, at most `MAX_CLIENTS` in all: an
/// existing client is reused; otherwise one is started while there is
/// room.
pub open spec fn choice_spec(running: Seq<(Seq<char>, Seq<char>)>, server: Seq<char>, root: Seq<char>, c: ClientChoice) -> bool {
    if running.contains((server, root)) {
        c matches ClientChoice::Reuse(i) && i < running.len() && running[i as int] == (server, root)
    } else if running.len() >= MAX_CLIENTS {
        c == ClientChoice::Full
    } else {
        c == ClientChoice::Spawn
    }
}

/// See `choice_spec`; `running` are the (server, root) pairs of the
/// running clients.
pub fn choose_client(running: &Vec<(String, String)>, server: &str, root: &str) -> (r: ClientChoice)
    ensures
        choice_spec(key_views(running@), server@, root@, r),
{
    let ghost kv = key_views(running@);
    let mut i: usize = 0;
    while i < running.len()
        invariant
            i <= running@.len(),
            kv == key_views(running@),
            forall|j: int| 0 <= j < i ==> kv[j] != (server@, root@),
        decreases running@.len() - i,
    {
        if str_eq(running[i].0.as_str(), server) && str_eq(running[i].1.as_str(), root) {
            assert(kv[i as int] == (server@, root@));
            assert(kv.contains((server@, root@)));
            return ClientChoice::Reuse(i);
        }
        i = i + 1;
    }
    if running.len() >= MAX_CLIENTS {
        ClientChoice::Full
    } else {
        ClientChoice::Spawn
    }
}

} // verus!
