//! The tool registry's bookkeeping: the registered names in ascending
//! order, each once; lookup by exact name, else ignoring ASCII case (local
//! models drift on casing); and the subset a subagent profile names. The
//! tools themselves sit beside the names, at the same indices.
use vstd::prelude::*;

use crate::permissions::eq_ignore_case_exec;
use crate::text::{eq_ignore_case, str_eq, to_chars};

verus! {

/// `a` sorts before `b`: code point by code point, a proper prefix first
/// (the order of `str`, since UTF-8 keeps code point order).
pub open spec fn lex_lt(a: Seq<char>, b: Seq<char>) -> bool
    decreases a.len(),
{
    if b.len() == 0 {
        false
    } else if a.len() == 0 {
        true
    } else if a[0] != b[0] {
        a[0] < b[0]
    } else {
        lex_lt(a.drop_first(), b.drop_first())
    }
}

/// Strictly ascending, hence each name once.
pub open spec fn ascending(s: Seq<Seq<char>>) -> bool {
    forall|i: int, j: int| 0 <= i < j < s.len() ==> lex_lt(#[trigger] s[i], #[trigger] s[j])
}

proof fn lemma_lex_irreflexive(a: Seq<char>)
    ensures
        !lex_lt(a, a),
    decreases a.len(),
{
    if a.len() > 0 {
        lemma_lex_irreflexive(a.drop_first());
    }
}

proof fn lemma_lex_trans(a: Seq<char>, b: Seq<char>, c: Seq<char>)
    requires
        lex_lt(a, b),
        lex_lt(b, c),
    ensures
        lex_lt(a, c),
    decreases a.len(),
{
    if a.len() > 0 && b.len() > 0 && c.len() > 0 && a[0] == b[0] && b[0] == c[0] {
        lemma_lex_trans(a.drop_first(), b.drop_first(), c.drop_first());
    }
}

proof fn lemma_lex_total(a: Seq<char>, b: Seq<char>)
    ensures
        a == b || lex_lt(a, b) || lex_lt(b, a),
    decreases a.len(),
{
    if a.len() > 0 && b.len() > 0 && a[0] == b[0] {
        lemma_lex_total(a.drop_first(), b.drop_first());
        if a.drop_first() == b.drop_first() {
            assert(a =~= seq![a[0]] + a.drop_first());
            assert(b =~= seq![b[0]] + b.drop_first());
        }
    } else if a.len() == 0 && b.len() == 0 {
        assert(a =~= b);
    }
}

/// Putting `name` at `i` keeps a list ascending when it sorts after what
/// comes before and before what comes after.
proof fn lemma_insert_ascending(s: Seq<Seq<char>>, i: int, name: Seq<char>)
    requires
        ascending(s),
        0 <= i <= s.len(),
        forall|j: int| 0 <= j < i ==> lex_lt(#[trigger] s[j], name),
        i < s.len() ==> lex_lt(name, s[i]),
    ensures
        ascending(s.take(i) + seq![name] + s.skip(i)),
{
    let v = s.take(i) + seq![name] + s.skip(i);
    assert forall|a: int, b: int| 0 <= a < b < v.len() implies lex_lt(#[trigger] v[a], #[trigger] v[b]) by {
        if b < i {
            assert(v[a] == s[a]);
            assert(v[b] == s[b]);
        } else if b == i {
            assert(v[a] == s[a]);
            assert(v[b] == name);
        } else if a < i {
            assert(v[a] == s[a]);
            assert(v[b] == s[b - 1]);
            assert(lex_lt(s[a], name));
            if b - 1 > i {
                assert(lex_lt(s[i], s[b - 1]));
                lemma_lex_trans(name, s[i], s[b - 1]);
            }
            lemma_lex_trans(s[a], name, s[b - 1]);
        } else if a == i {
            assert(v[a] == name);
            assert(v[b] == s[b - 1]);
            if b - 1 > i {
                assert(lex_lt(s[i], s[b - 1]));
                lemma_lex_trans(name, s[i], s[b - 1]);
            }
        } else {
            assert(v[a] == s[a - 1]);
            assert(v[b] == s[b - 1]);
        }
    }
}

fn lex_lt_exec(a: &[char], b: &[char]) -> (r: bool)
    ensures
        r == lex_lt(a@, b@),
{
    let mut i: usize = 0;
    assert(a@.skip(0) =~= a@);
    assert(b@.skip(0) =~= b@);
    while i < a.len() && i < b.len() && a[i] == b[i]
        invariant
            i <= a@.len(),
            i <= b@.len(),
            lex_lt(a@, b@) == lex_lt(a@.skip(i as int), b@.skip(i as int)),
        decreases a@.len() - i,
    {
        assert(a@.skip(i as int).drop_first() =~= a@.skip(i + 1));
        assert(b@.skip(i as int).drop_first() =~= b@.skip(i + 1));
        i = i + 1;
    }
    if i == b.len() {
        false
    } else if i == a.len() {
        true
    } else {
        assert(a@.skip(i as int)[0] == a@[i as int]);
        assert(b@.skip(i as int)[0] == b@[i as int]);
        a[i] < b[i]
    }
}

/// The registered tool names.
pub struct ToolNames {
    names: Vec<String>,
}

pub open spec fn str_views(v: Seq<String>) -> Seq<Seq<char>> {
    v.map_values(|s: String| s@)
}

/// Where `name` goes: before the first name it sorts before.
pub open spec fn insert_sorted(s: Seq<Seq<char>>, name: Seq<char>) -> Seq<Seq<char>>
    decreases s.len(),
{
    if s.len() == 0 {
        seq![name]
    } else if s[0] == name {
        s
    } else if lex_lt(name, s[0]) {
        seq![name] + s
    } else {
        seq![s[0]] + insert_sorted(s.drop_first(), name)
    }
}

/// The index of the first name equal to `name` ignoring ASCII case.
pub open spec fn first_caseless(s: Seq<Seq<char>>, name: Seq<char>) -> Option<int> {
    if exists|i: int| 0 <= i < s.len() && eq_ignore_case(#[trigger] s[i], name) {
        Some(
            choose|i: int|
                0 <= i < s.len() && eq_ignore_case(s[i], name) && forall|j: int|
                    0 <= j < i ==> !eq_ignore_case(#[trigger] s[j], name),
        )
    } else {
        None
    }
}

/// Lookup: the name itself, else the first name equal to it ignoring ASCII
/// case.
pub open spec fn find_spec(s: Seq<Seq<char>>, name: Seq<char>) -> Option<int> {
    if s.contains(name) {
        Some(s.index_of(name))
    } else {
        first_caseless(s, name)
    }
}

/// Whether `wanted` mentions `n`, ignoring ASCII case.
pub open spec fn wanted_by(wanted: Seq<Seq<char>>, n: Seq<char>) -> bool {
    exists|k: int| 0 <= k < wanted.len() && eq_ignore_case(#[trigger] wanted[k], n)
}

/// The names `wanted` mentions, in order.
pub open spec fn subset_spec(s: Seq<Seq<char>>, wanted: Seq<Seq<char>>) -> Seq<Seq<char>>
    decreases s.len(),
{
    if s.len() == 0 {
        Seq::empty()
    } else {
        let r = subset_spec(s.drop_last(), wanted);
        if wanted_by(wanted, s.last()) {
            r.push(s.last())
        } else {
            r
        }
    }
}

impl ToolNames {
    pub closed spec fn view_names(&self) -> Seq<Seq<char>> {
        str_views(self.names@)
    }

    pub closed spec fn wf(&self) -> bool {
        ascending(self.view_names())
    }

    pub fn new() -> (r: ToolNames)
        ensures
            r.wf(),
            r.view_names() == Seq::<Seq<char>>::empty(),
    {
        let r = ToolNames { names: Vec::new() };
        assert(r.view_names() =~= Seq::<Seq<char>>::empty());
        r
    }

    /// The names, ascending.
    pub fn names(&self) -> (r: Vec<String>)
        ensures
            str_views(r@) == self.view_names(),
    {
        let mut r: Vec<String> = Vec::new();
        let mut i: usize = 0;
        assert(str_views(r@) =~= self.view_names().take(0));
        while i < self.names.len()
            invariant
                i <= self.names@.len(),
                str_views(r@) =~= self.view_names().take(i as int),
            decreases self.names@.len() - i,
        {
            r.push(crate::model::copy_string(&self.names[i]));
            assert(self.view_names().take(i + 1) =~= self.view_names().take(i as int).push(self.names@[i as int]@));
            i = i + 1;
        }
        assert(self.view_names().take(self.names@.len() as int) =~= self.view_names());
        r
    }

    /// Register `name`: a new name goes in its sorted place; a known one
    /// stays where it is (its tool is replaced). The index it has now.
    pub fn register(&mut self, name: &str) -> (r: usize)
        requires
            old(self).wf(),
        ensures
            final(self).wf(),
            final(self).view_names() == insert_sorted(old(self).view_names(), name@),
            r < final(self).view_names().len(),
            final(self).view_names()[r as int] == name@,
    {
        let ghost s = self.view_names();
        let n = to_chars(name);
        let mut i: usize = 0;
        assert(s.take(0) + insert_sorted(s.skip(0), name@) =~= insert_sorted(s, name@)) by {
            assert(s.skip(0) =~= s);
        }
        while i < self.names.len()
            invariant
                i <= self.names@.len(),
                s == str_views(self.names@),
                s == old(self).view_names(),
                ascending(s),
                n@ == name@,
                forall|j: int| 0 <= j < i ==> lex_lt(#[trigger] s[j], name@),
                insert_sorted(s, name@) == s.take(i as int) + insert_sorted(s.skip(i as int), name@),
            decreases self.names@.len() - i,
        {
            let c = to_chars(self.names[i].as_str());
            assert(s[i as int] == c@);
            let ghost t = s.skip(i as int);
            assert(t[0] == s[i as int]);
            if str_eq(self.names[i].as_str(), name) {
                assert(insert_sorted(t, name@) == t);
                assert(s.take(i as int) + t =~= s);
                return i;
            }
            if lex_lt_exec(n.as_slice(), c.as_slice()) {
                assert(insert_sorted(t, name@) == seq![name@] + t);
                self.names.insert(i, name.to_string());
                proof {
                    assert(self.view_names() =~= s.take(i as int) + seq![name@] + t);
                    assert(s.take(i as int) + (seq![name@] + t) =~= s.take(i as int) + seq![name@] + t);
                    lemma_insert_ascending(s, i as int, name@);
                }
                return i;
            }
            proof {
                lemma_lex_total(name@, s[i as int]);
                assert(t.drop_first() =~= s.skip(i + 1));
                assert(s.take(i as int) + (seq![s[i as int]] + insert_sorted(s.skip(i + 1), name@)) =~= s.take(i + 1)
                    + insert_sorted(s.skip(i + 1), name@));
            }
            i = i + 1;
        }
        self.names.push(name.to_string());
        proof {
            assert(s.skip(i as int) =~= Seq::<Seq<char>>::empty());
            assert(s.take(i as int) =~= s);
            assert(self.view_names() =~= s.push(name@));
            assert(s.take(i as int) + seq![name@] + s.skip(i as int) =~= s.push(name@));
            lemma_insert_ascending(s, i as int, name@);
        }
        i
    }

    /// Look a tool up (see `find_spec`).
    pub fn get(&self, name: &str) -> (r: Option<usize>)
        requires
            self.wf(),
        ensures
            match r {
                Some(i) => find_spec(self.view_names(), name@) == Some(i as int),
                None => find_spec(self.view_names(), name@) is None,
            },
    {
        let ghost s = self.view_names();
        let mut i: usize = 0;
        while i < self.names.len()
            invariant
                i <= self.names@.len(),
                s == str_views(self.names@),
                ascending(s),
                forall|j: int| 0 <= j < i ==> s[j] != name@,
            decreases self.names@.len() - i,
        {
            if str_eq(self.names[i].as_str(), name) {
                proof {
                    assert(s[i as int] == name@);
                    assert(s.contains(name@));
                    let k = s.index_of(name@);
                    assert(s[k] == name@);
                    lemma_lex_irreflexive(name@);
                    if k > i {
                        assert(lex_lt(s[i as int], s[k]));
                    }
                }
                return Some(i);
            }
            i = i + 1;
        }
        assert(!s.contains(name@));
        let n = to_chars(name);
        let mut k: usize = 0;
        while k < self.names.len()
            invariant
                k <= self.names@.len(),
                s == str_views(self.names@),
                !s.contains(name@),
                n@ == name@,
                forall|j: int| 0 <= j < k ==> !eq_ignore_case(#[trigger] s[j], name@),
            decreases self.names@.len() - k,
        {
            let c = to_chars(self.names[k].as_str());
            assert(s[k as int] == c@);
            if eq_ignore_case_exec(c.as_slice(), n.as_slice()) {
                proof {
                    let w = choose|w: int|
                        0 <= w < s.len() && eq_ignore_case(s[w], name@) && forall|j: int|
                            0 <= j < w ==> !eq_ignore_case(#[trigger] s[j], name@);
                    assert(eq_ignore_case(s[k as int], name@));
                    if w < k {
                    } else if w > k {
                        assert(!eq_ignore_case(s[k as int], name@));
                    }
                }
                return Some(k);
            }
            k = k + 1;
        }
        None
    }

    /// The names a profile lists (see `subset_spec`).
    pub fn subset(&self, wanted: &Vec<String>) -> (r: ToolNames)
        requires
            self.wf(),
        ensures
            r.wf(),
            r.view_names() == subset_spec(self.view_names(), str_views(wanted@)),
    {
        let ghost s = self.view_names();
        let ghost w = str_views(wanted@);
        let mut out: Vec<String> = Vec::new();
        let mut i: usize = 0;
        while i < self.names.len()
            invariant
                i <= self.names@.len(),
                s == str_views(self.names@),
                w == str_views(wanted@),
                ascending(s),
                str_views(out@) == subset_spec(s.take(i as int), w),
            decreases self.names@.len() - i,
        {
            let c = to_chars(self.names[i].as_str());
            let mut hit = false;
            let mut k: usize = 0;
            while k < wanted.len()
                invariant
                    k <= wanted@.len(),
                    c@ == s[i as int],
                    w == str_views(wanted@),
                    hit == exists|q: int| 0 <= q < k && eq_ignore_case(#[trigger] w[q], s[i as int]),
                    k < wanted@.len() ==> w[k as int] == wanted@[k as int]@,
                decreases wanted@.len() - k,
            {
                let wk = to_chars(wanted[k].as_str());
                assert(w[k as int] == wk@);
                if eq_ignore_case_exec(wk.as_slice(), c.as_slice()) {
                    hit = true;
                }
                k = k + 1;
            }
            proof {
                assert(s.take(i + 1).drop_last() =~= s.take(i as int));
                assert(s.take(i + 1).last() == s[i as int]);
            }
            if hit {
                let ghost before = str_views(out@);
                out.push(crate::model::copy_string(&self.names[i]));
                assert(str_views(out@) =~= before.push(s[i as int]));
            }
            i = i + 1;
        }
        assert(s.take(self.names@.len() as int) =~= s);
        let r = ToolNames { names: out };
        proof {
            lemma_filter_ascending(s, w);
        }
        r
    }
}

/// What the subset keeps comes from the list.
proof fn lemma_subset_from(s: Seq<Seq<char>>, w: Seq<Seq<char>>, x: Seq<char>)
    requires
        subset_spec(s, w).contains(x),
    ensures
        s.contains(x),
    decreases s.len(),
{
    if s.len() > 0 {
        let r = subset_spec(s.drop_last(), w);
        if r.contains(x) {
            lemma_subset_from(s.drop_last(), w, x);
            let j = choose|j: int| 0 <= j < s.drop_last().len() && s.drop_last()[j] == x;
            assert(s[j] == x);
        } else {
            assert(x == s.last());
            assert(s[s.len() - 1] == x);
        }
    }
}

/// A subset of an ascending list is ascending.
proof fn lemma_filter_ascending(s: Seq<Seq<char>>, w: Seq<Seq<char>>)
    requires
        ascending(s),
    ensures
        ascending(subset_spec(s, w)),
    decreases s.len(),
{
    if s.len() > 0 {
        let init = s.drop_last();
        assert(ascending(init));
        lemma_filter_ascending(init, w);
        let fi = subset_spec(init, w);
        let f = subset_spec(s, w);
        assert forall|a: int, b: int| 0 <= a < b < f.len() implies lex_lt(#[trigger] f[a], #[trigger] f[b]) by {
            if wanted_by(w, s.last()) && b == fi.len() {
                assert(f[b] == s.last());
                assert(f[a] == fi[a]);
                assert(fi.contains(fi[a]));
                lemma_subset_from(init, w, fi[a]);
                let x = choose|x: int| 0 <= x < init.len() && init[x] == fi[a];
                assert(lex_lt(s[x], s[s.len() - 1]));
            } else {
                assert(f[a] == fi[a]);
                assert(f[b] == fi[b]);
            }
        }
    }
}

/// A registered tool is found under its own name: in the ascending list
/// `register` leaves, lookup of the name gives the index `register`
/// returned.
pub proof fn law_registered_is_found(v: Seq<Seq<char>>, name: Seq<char>, r: int)
    requires
        ascending(v),
        0 <= r < v.len(),
        v[r] == name,
    ensures
        find_spec(v, name) == Some(r),
{
    assert(v.contains(name));
    let k = v.index_of(name);
    assert(v[k] == name);
    lemma_lex_irreflexive(name);
    if k < r {
        assert(lex_lt(v[k], v[r]));
    } else if k > r {
        assert(lex_lt(v[r], v[k]));
    }
}

} // verus!
