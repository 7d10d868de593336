//! SKILL.md skills: the frontmatter fences, the skill list that discovery
//! builds (later sources shadow earlier ones by name, built-ins fill the
//! gaps, the list is sorted by name), the system-prompt index, and what
//! the `skill` tool answers.
use vstd::prelude::*;

use crate::paths::{join_path, joined};
use crate::text::{
    extend, extend_str, find, find_exec, from_chars, slice_to_vec, starts_with_exec, str_eq,
    strip_all, strip_all_exec, to_chars, trim, trim_exec,
};

verus! {

/// A skill: an index entry (name and description) and where its
/// instructions come from.
#[derive(Debug, Clone)]
pub struct Skill {
    pub name: String,
    pub description: String,
    /// Advisory tool allowlist from the `allowed-tools` frontmatter.
    pub allowed_tools: Option<Vec<String>>,
    /// Advisory model suggestion from the `model` frontmatter.
    pub model: Option<String>,
    /// Directory holding the SKILL.md (for the files it mentions).
    pub dir: String,
    /// The embedded body of a built-in skill; `None` means read it from `dir`.
    pub body: Option<String>,
}

pub struct SkillView {
    pub name: Seq<char>,
    pub description: Seq<char>,
    pub allowed_tools: Option<Seq<Seq<char>>>,
    pub model: Option<Seq<char>>,
    pub dir: Seq<char>,
    pub body: Option<Seq<char>>,
}

pub open spec fn str_views(v: Seq<String>) -> Seq<Seq<char>> {
    v.map_values(|s: String| s@)
}

impl View for Skill {
    type V = SkillView;

    open spec fn view(&self) -> SkillView {
        SkillView {
            name: self.name@,
            description: self.description@,
            allowed_tools: match self.allowed_tools {
                Some(t) => Some(str_views(t@)),
                None => None,
            },
            model: crate::model::opt_view(self.model),
            dir: self.dir@,
            body: crate::model::opt_view(self.body),
        }
    }
}

pub open spec fn skill_views(v: Seq<Skill>) -> Seq<SkillView> {
    v.map_values(|s: Skill| s@)
}

impl Skill {
    /// Built-in skills are the only ones with an embedded body.
    pub fn is_builtin(&self) -> (r: bool)
        ensures
            r == self.body.is_some(),
    {
        self.body.is_some()
    }

    fn copy(&self) -> (r: Skill)
        ensures
            r@ == self@,
    {
        let tools = match &self.allowed_tools {
            Some(t) => {
                let mut v: Vec<String> = Vec::new();
                let mut i: usize = 0;
                while i < t.len()
                    invariant
                        i <= t@.len(),
                        str_views(v@) =~= str_views(t@).take(i as int),
                    decreases t@.len() - i,
                {
                    let ghost before = v@;
                    v.push(t[i].clone());
                    assert(str_views(v@) =~= str_views(before).push(t@[i as int]@));
                    i = i + 1;
                }
                assert(str_views(t@).take(t@.len() as int) =~= str_views(t@));
                Some(v)
            },
            None => None,
        };
        Skill {
            name: self.name.clone(),
            description: self.description.clone(),
            allowed_tools: tools,
            model: crate::model::copy_opt_string(&self.model),
            dir: self.dir.clone(),
            body: crate::model::copy_opt_string(&self.body),
        }
    }
}

// ---------------------------------------------------------------------------
// Frontmatter
// ---------------------------------------------------------------------------

/// A SKILL.md split at its `---` fences into frontmatter and body: it must
/// start with `---`, and the frontmatter ends at the first `\n---`.
pub open spec fn frontmatter_split(c: Seq<char>) -> Option<(Seq<char>, Seq<char>)> {
    if "---"@.is_prefix_of(c) {
        let rest = c.skip(3);
        match find(rest, "\n---"@) {
            Some(i) => Some((rest.take(i), rest.skip(i + 4))),
            None => None,
        }
    } else {
        None
    }
}

/// Split a SKILL.md at its fences (see `frontmatter_split`).
pub fn split_frontmatter(content: &str) -> (r: Option<(String, String)>)
    ensures
        match r {
            Some((f, b)) => frontmatter_split(content@) == Some((f@, b@)),
            None => frontmatter_split(content@) is None,
        },
{
    proof {
        reveal_strlit("---");
        reveal_strlit("\n---");
    }
    let cs = to_chars(content);
    let fence = to_chars("---");
    if !starts_with_exec(cs.as_slice(), fence.as_slice()) {
        return None;
    }
    let n = cs.len();
    let rest = slice_to_vec(cs.as_slice(), 3, n);
    assert(rest@ =~= content@.skip(3));
    let close = to_chars("\n---");
    match find_exec(rest.as_slice(), close.as_slice()) {
        Some(i) => {
            assert(close@.len() == 4);
            let m = rest.len();
            assert(i + 4 <= m) by {
                assert(crate::text::matches_at(rest@, close@, i as int));
            }
            let front = slice_to_vec(rest.as_slice(), 0, i);
            let back = slice_to_vec(rest.as_slice(), i + 4, m);
            assert(front@ =~= rest@.take(i as int));
            assert(back@ =~= rest@.skip(i + 4));
            Some((from_chars(front.as_slice()), from_chars(back.as_slice())))
        },
        None => None,
    }
}

/// `str::replace("\r\n", "\n")`.
pub open spec fn crlf_to_lf(s: Seq<char>) -> Seq<char>
    decreases s.len(),
{
    if s.len() == 0 {
        s
    } else if s.len() >= 2 && s[0] == '\r' && s[1] == '\n' {
        seq!['\n'] + crlf_to_lf(s.skip(2))
    } else {
        seq![s[0]] + crlf_to_lf(s.drop_first())
    }
}

/// The YAML of a SKILL.md's frontmatter, with `\r\n` line ends made `\n`;
/// `None` when the fences are absent.
pub fn frontmatter_yaml(content: &str) -> (r: Option<String>)
    ensures
        match r {
            Some(y) => frontmatter_split(content@) is Some && y@ == crlf_to_lf(frontmatter_split(content@).unwrap().0),
            None => frontmatter_split(content@) is None,
        },
{
    match split_frontmatter(content) {
        Some((front, _)) => {
            let cs = to_chars(front.as_str());
            let n = cs.len();
            let mut out: Vec<char> = Vec::new();
            let mut i: usize = 0;
            assert(cs@.skip(0) =~= cs@);
            assert(out@ + crlf_to_lf(cs@.skip(0)) =~= crlf_to_lf(cs@));
            while i < n
                invariant
                    i <= n,
                    n == cs@.len(),
                    out@ + crlf_to_lf(cs@.skip(i as int)) == crlf_to_lf(cs@),
                decreases n - i,
            {
                let ghost t = cs@.skip(i as int);
                assert(t[0] == cs@[i as int]);
                if n - i >= 2 && cs[i] == '\r' && cs[i + 1] == '\n' {
                    assert(t[1] == cs@[i + 1]);
                    assert(t.skip(2) =~= cs@.skip(i + 2));
                    let ghost before = out@;
                    out.push('\n');
                    assert(before + (seq!['\n'] + crlf_to_lf(t.skip(2))) =~= out@ + crlf_to_lf(
                        cs@.skip(i + 2),
                    ));
                    i = i + 2;
                } else {
                    assert(t.drop_first() =~= cs@.skip(i + 1));
                    let ghost before = out@;
                    out.push(cs[i]);
                    assert(before + (seq![cs@[i as int]] + crlf_to_lf(t.drop_first())) =~= out@
                        + crlf_to_lf(cs@.skip(i + 1)));
                    i = i + 1;
                }
            }
            assert(cs@.skip(n as int) =~= Seq::<char>::empty());
            assert(out@ + Seq::<char>::empty() =~= out@);
            Some(from_chars(out.as_slice()))
        },
        None => None,
    }
}

/// The instructions of a SKILL.md: the body after the fences, with any
/// further leading `---` and surrounding whitespace removed; a file without
/// fences is all body.
pub open spec fn body_text(c: Seq<char>) -> Seq<char> {
    match frontmatter_split(c) {
        Some((_, b)) => trim(strip_all(b, "---"@)),
        None => c,
    }
}

/// The instructions of a SKILL.md (see `body_text`).
pub fn skill_body(content: &str) -> (r: String)
    ensures
        r@ == body_text(content@),
{
    match split_frontmatter(content) {
        Some((_, b)) => {
            let bs = to_chars(b.as_str());
            let fence = to_chars("---");
            let stripped = strip_all_exec(bs.as_slice(), fence.as_slice());
            let t = trim_exec(stripped.as_slice());
            from_chars(t.as_slice())
        },
        None => content.to_string(),
    }
}

// ---------------------------------------------------------------------------
// The skill list
// ---------------------------------------------------------------------------

/// The skills other than those named `name`, in order.
pub open spec fn without_name(s: Seq<SkillView>, name: Seq<char>) -> Seq<SkillView>
    decreases s.len(),
{
    if s.len() == 0 {
        s
    } else {
        let r = without_name(s.drop_last(), name);
        if s.last().name == name {
            r
        } else {
            r.push(s.last())
        }
    }
}

/// Add a discovered skill, shadowing any earlier skill of the same name.
pub fn add_skill(skills: &mut Vec<Skill>, skill: Skill)
    ensures
        skill_views(final(skills)@) == without_name(skill_views(old(skills)@), skill@.name).push(skill@),
{
    let ghost sv = skill_views(old(skills)@);
    let mut kept: Vec<Skill> = Vec::new();
    let mut i: usize = 0;
    while i < skills.len()
        invariant
            i <= skills@.len(),
            skills@ == old(skills)@,
            sv == skill_views(old(skills)@),
            skill_views(kept@) == without_name(sv.take(i as int), skill@.name),
        decreases skills@.len() - i,
    {
        proof {
            assert(sv.take(i + 1).drop_last() =~= sv.take(i as int));
            assert(sv.take(i + 1).last() == skills@[i as int]@);
        }
        if !str_eq(skills[i].name.as_str(), skill.name.as_str()) {
            let ghost before = kept@;
            kept.push(skills[i].copy());
            assert(skill_views(kept@) =~= skill_views(before).push(skills@[i as int]@));
        }
        i = i + 1;
    }
    assert(sv.take(skills@.len() as int) =~= sv);
    let ghost before = kept@;
    kept.push(skill);
    assert(skill_views(kept@) =~= skill_views(before).push(skill@));
    *skills = kept;
}

pub open spec fn has_name(s: Seq<SkillView>, name: Seq<char>) -> bool {
    exists|i: int| 0 <= i < s.len() && (#[trigger] s[i]).name == name
}

/// Built-in skills fill the names no other skill provides, in order.
pub open spec fn with_builtins(s: Seq<SkillView>, b: Seq<SkillView>) -> Seq<SkillView>
    decreases b.len(),
{
    if b.len() == 0 {
        s
    } else {
        let r = with_builtins(s, b.drop_last());
        if has_name(r, b.last().name) {
            r
        } else {
            r.push(b.last())
        }
    }
}

fn has_name_exec(s: &Vec<Skill>, name: &str) -> (r: bool)
    ensures
        r == has_name(skill_views(s@), name@),
{
    let ghost v = skill_views(s@);
    let mut i: usize = 0;
    while i < s.len()
        invariant
            i <= s@.len(),
            v == skill_views(s@),
            forall|j: int| 0 <= j < i ==> (#[trigger] v[j]).name != name@,
        decreases s@.len() - i,
    {
        if str_eq(s[i].name.as_str(), name) {
            assert(v[i as int].name == name@);
            return true;
        }
        i = i + 1;
    }
    false
}

/// Add the built-in skills whose names no user skill took.
pub fn add_builtins(skills: &mut Vec<Skill>, builtins: Vec<Skill>)
    ensures
        skill_views(final(skills)@) == with_builtins(skill_views(old(skills)@), skill_views(builtins@)),
{
    let ghost s0 = skill_views(old(skills)@);
    let ghost bv = skill_views(builtins@);
    let mut i: usize = 0;
    while i < builtins.len()
        invariant
            i <= builtins@.len(),
            bv == skill_views(builtins@),
            skill_views(skills@) == with_builtins(s0, bv.take(i as int)),
        decreases builtins@.len() - i,
    {
        proof {
            assert(bv.take(i + 1).drop_last() =~= bv.take(i as int));
            assert(bv.take(i + 1).last() == builtins@[i as int]@);
        }
        if !has_name_exec(skills, builtins[i].name.as_str()) {
            let ghost before = skills@;
            skills.push(builtins[i].copy());
            assert(skill_views(skills@) =~= skill_views(before).push(builtins@[i as int]@));
        }
        i = i + 1;
    }
    assert(bv.take(builtins@.len() as int) =~= bv);
}

/// `String` order: lexicographic by character (which is UTF-8 byte order).
pub open spec fn name_le(a: Seq<char>, b: Seq<char>) -> bool
    decreases a.len(),
{
    if a.len() == 0 {
        true
    } else if b.len() == 0 {
        false
    } else if (a[0] as u32) < (b[0] as u32) {
        true
    } else if (a[0] as u32) > (b[0] as u32) {
        false
    } else {
        name_le(a.drop_first(), b.drop_first())
    }
}

/// `x` placed after every skill whose name sorts no later than its own.
pub open spec fn insert_by_name(t: Seq<SkillView>, x: SkillView) -> Seq<SkillView>
    decreases t.len(),
{
    if t.len() == 0 || name_le(t.last().name, x.name) {
        t.push(x)
    } else {
        insert_by_name(t.drop_last(), x).push(t.last())
    }
}

/// The stable sort of skills by name.
pub open spec fn sorted_by_name(s: Seq<SkillView>) -> Seq<SkillView>
    decreases s.len(),
{
    if s.len() == 0 {
        s
    } else {
        insert_by_name(sorted_by_name(s.drop_last()), s.last())
    }
}

fn name_le_exec(a: &str, b: &str) -> (r: bool)
    ensures
        r == name_le(a@, b@),
{
    let x = to_chars(a);
    let y = to_chars(b);
    let mut i: usize = 0;
    assert(x@.skip(0) =~= x@);
    assert(y@.skip(0) =~= y@);
    while i < x.len() && i < y.len() && (x[i] as u32) == (y[i] as u32)
        invariant
            i <= x@.len(),
            i <= y@.len(),
            name_le(a@, b@) == name_le(x@.skip(i as int), y@.skip(i as int)),
            x@ == a@,
            y@ == b@,
        decreases x@.len() - i,
    {
        proof {
            let p = x@.skip(i as int);
            let q = y@.skip(i as int);
            assert(p[0] == x@[i as int] && q[0] == y@[i as int]);
            assert(p.drop_first() =~= x@.skip(i + 1));
            assert(q.drop_first() =~= y@.skip(i + 1));
        }
        i = i + 1;
    }
    let ghost p = x@.skip(i as int);
    let ghost q = y@.skip(i as int);
    if i == x.len() {
        assert(p.len() == 0);
        true
    } else if i == y.len() {
        assert(q.len() == 0);
        false
    } else {
        assert(p[0] == x@[i as int] && q[0] == y@[i as int]);
        (x[i] as u32) < (y[i] as u32)
    }
}

proof fn lemma_insert_at(t: Seq<SkillView>, x: SkillView, p: int)
    requires
        0 <= p <= t.len(),
        p == t.len() || !name_le(t[p].name, x.name),
        forall|j: int| p < j < t.len() ==> !name_le(#[trigger] t[j].name, x.name),
        p == 0 || name_le(t[p - 1].name, x.name),
    ensures
        insert_by_name(t, x) == t.take(p).push(x) + t.skip(p),
    decreases t.len(),
{
    if p == t.len() {
        assert(t.take(p) =~= t);
        assert(t.skip(p) =~= Seq::<SkillView>::empty());
        if t.len() > 0 {
            assert(name_le(t.last().name, x.name));
        }
        assert(t.push(x) =~= t.take(p).push(x) + t.skip(p));
    } else {
        assert(!name_le(t.last().name, x.name));
        let d = t.drop_last();
        assert forall|j: int| p < j < d.len() implies !name_le(#[trigger] d[j].name, x.name) by {
            assert(d[j] == t[j]);
        }
        if p < d.len() {
            assert(d[p] == t[p]);
        }
        if p > 0 {
            assert(d[p - 1] == t[p - 1]);
        }
        lemma_insert_at(d, x, p);
        assert(d.take(p) =~= t.take(p));
        assert(d.skip(p).push(t.last()) =~= t.skip(p));
        assert((d.take(p).push(x) + d.skip(p)).push(t.last()) =~= t.take(p).push(x) + t.skip(p));
    }
}

/// Sort skills by name, keeping the order of equal names.
pub fn sort_by_name(skills: Vec<Skill>) -> (r: Vec<Skill>)
    ensures
        skill_views(r@) == sorted_by_name(skill_views(skills@)),
{
    let ghost sv = skill_views(skills@);
    let mut out: Vec<Skill> = Vec::new();
    let mut i: usize = 0;
    while i < skills.len()
        invariant
            i <= skills@.len(),
            sv == skill_views(skills@),
            skill_views(out@) == sorted_by_name(sv.take(i as int)),
        decreases skills@.len() - i,
    {
        proof {
            assert(sv.take(i + 1).drop_last() =~= sv.take(i as int));
            assert(sv.take(i + 1).last() == skills@[i as int]@);
        }
        let x = skills[i].copy();
        let ghost t = skill_views(out@);
        let mut p: usize = out.len();
        while p > 0 && !name_le_exec(out[p - 1].name.as_str(), x.name.as_str())
            invariant
                p <= out@.len(),
                t == skill_views(out@),
                forall|j: int| p <= j < t.len() ==> !name_le(#[trigger] t[j].name, x@.name),
            decreases p,
        {
            assert(t[p - 1] == out@[p - 1]@);
            p = p - 1;
        }
        proof {
            if p > 0 {
                assert(t[p - 1] == out@[p - 1]@);
            }
            lemma_insert_at(t, x@, p as int);
        }
        let ghost before = out@;
        out.insert(p, x);
        assert(skill_views(out@) =~= t.take(p as int).push(x@) + t.skip(p as int)) by {
            assert forall|j: int| 0 <= j < out@.len() implies skill_views(out@)[j] == (t.take(p as int).push(x@) + t.skip(p as int))[j] by {
                if j < p {
                    assert(out@[j] == before[j]);
                } else if j > p {
                    assert(out@[j] == before[j - 1]);
                }
            }
        }
        i = i + 1;
    }
    assert(sv.take(skills@.len() as int) =~= sv);
    out
}

// ---------------------------------------------------------------------------
// Prompt index and the `skill` tool
// ---------------------------------------------------------------------------

pub open spec fn preamble_lines(s: Seq<SkillView>) -> Seq<char>
    decreases s.len(),
{
    if s.len() == 0 {
        Seq::empty()
    } else {
        preamble_lines(s.drop_last()) + "- "@ + s.last().name + ": "@ + s.last().description + "\n"@
    }
}

/// The skill index for the system prompt; empty when there are no skills.
pub open spec fn preamble_text(s: Seq<SkillView>) -> Seq<char> {
    if s.len() == 0 {
        Seq::empty()
    } else {
        "\n\nSkills (load one with the `skill` tool when its description matches the task):\n"@
            + preamble_lines(s)
    }
}

/// The skill index for the system prompt (see `preamble_text`).
pub fn preamble(skills: &Vec<Skill>) -> (r: String)
    ensures
        r@ == preamble_text(skill_views(skills@)),
{
    if skills.len() == 0 {
        return String::new();
    }
    let ghost sv = skill_views(skills@);
    let mut v = to_chars("\n\nSkills (load one with the `skill` tool when its description matches the task):\n");
    let ghost head = v@;
    let mut i: usize = 0;
    while i < skills.len()
        invariant
            i <= skills@.len(),
            sv == skill_views(skills@),
            v@ == head + preamble_lines(sv.take(i as int)),
        decreases skills@.len() - i,
    {
        proof {
            assert(sv.take(i + 1).drop_last() =~= sv.take(i as int));
            assert(sv.take(i + 1).last() == skills@[i as int]@);
        }
        let ghost before = v@;
        extend_str(&mut v, "- ");
        extend_str(&mut v, skills[i].name.as_str());
        extend_str(&mut v, ": ");
        extend_str(&mut v, skills[i].description.as_str());
        extend_str(&mut v, "\n");
        assert(v@ =~= before + "- "@ + skills@[i as int].name@ + ": "@ + skills@[i as int].description@ + "\n"@);
        i = i + 1;
    }
    assert(sv.take(skills@.len() as int) =~= sv);
    from_chars(v.as_slice())
}

/// The first skill named `name`.
pub open spec fn find_skill_spec(s: Seq<SkillView>, name: Seq<char>) -> Option<int> {
    if has_name(s, name) {
        Some(choose|i: int| 0 <= i < s.len() && s[i].name == name && forall|j: int| 0 <= j < i ==> (#[trigger] s[j]).name != name)
    } else {
        None
    }
}

/// Index of the first skill named `name`.
pub fn find_skill(skills: &Vec<Skill>, name: &str) -> (r: Option<usize>)
    ensures
        match r {
            Some(i) => i < skills@.len() && skills@[i as int].name@ == name@ && forall|j: int|
                0 <= j < i ==> (#[trigger] skills@[j]).name@ != name@,
            None => !has_name(skill_views(skills@), name@),
        },
{
    let mut i: usize = 0;
    while i < skills.len()
        invariant
            i <= skills@.len(),
            forall|j: int| 0 <= j < i ==> (#[trigger] skills@[j]).name@ != name@,
        decreases skills@.len() - i,
    {
        if str_eq(skills[i].name.as_str(), name) {
            return Some(i);
        }
        i = i + 1;
    }
    proof {
        let sv = skill_views(skills@);
        assert forall|j: int| 0 <= j < sv.len() implies (#[trigger] sv[j]).name != name@ by {
            assert(sv[j] == skills@[j]@);
        }
    }
    None
}

pub open spec fn joined_names(s: Seq<SkillView>) -> Seq<char>
    decreases s.len(),
{
    if s.len() == 0 {
        Seq::empty()
    } else if s.len() == 1 {
        s[0].name
    } else {
        joined_names(s.drop_last()) + ", "@ + s.last().name
    }
}

/// The error for a name no skill has.
pub open spec fn unknown_skill_text(name: Seq<char>, s: Seq<SkillView>) -> Seq<char> {
    "unknown skill `"@ + name + "`. Available: "@ + joined_names(s)
}

/// The error for a name no skill has (see `unknown_skill_text`).
pub fn unknown_skill_message(name: &str, skills: &Vec<Skill>) -> (r: String)
    ensures
        r@ == unknown_skill_text(name@, skill_views(skills@)),
{
    let ghost sv = skill_views(skills@);
    let mut names: Vec<char> = Vec::new();
    let mut i: usize = 0;
    while i < skills.len()
        invariant
            i <= skills@.len(),
            sv == skill_views(skills@),
            names@ == joined_names(sv.take(i as int)),
        decreases skills@.len() - i,
    {
        proof {
            assert(sv.take(i + 1).drop_last() =~= sv.take(i as int));
            assert(sv.take(i + 1).last() == skills@[i as int]@);
        }
        if i > 0 {
            extend_str(&mut names, ", ");
        }
        extend_str(&mut names, skills[i].name.as_str());
        proof {
            if i == 0 {
                assert(sv.take(1)[0] == skills@[0]@);
                assert(names@ =~= skills@[0].name@);
            }
        }
        i = i + 1;
    }
    assert(sv.take(skills@.len() as int) =~= sv);
    let mut v = to_chars("unknown skill `");
    extend_str(&mut v, name);
    extend_str(&mut v, "`. Available: ");
    extend(&mut v, names.as_slice());
    from_chars(v.as_slice())
}

pub open spec fn join_comma(v: Seq<Seq<char>>) -> Seq<char>
    decreases v.len(),
{
    if v.len() == 0 {
        Seq::empty()
    } else if v.len() == 1 {
        v[0]
    } else {
        join_comma(v.drop_last()) + ", "@ + v.last()
    }
}

/// What the `skill` tool answers for a loaded skill: a banner (where its
/// files live, the tools and model it suggests), a blank line, the body.
pub open spec fn loaded_text(s: SkillView, body: Seq<char>) -> Seq<char> {
    "[Skill `"@ + s.name + "` loaded — follow these instructions. "@ + (if s.body is Some {
        "(built-in skill)"@
    } else {
        "Files it mentions live in "@ + s.dir
    }) + "]"@ + (match s.allowed_tools {
        Some(t) => "\n[This skill suggests using only these tools: "@ + join_comma(t) + "]"@,
        None => Seq::empty(),
    }) + (match s.model {
        Some(m) => "\n[This skill suggests model: "@ + m + "]"@,
        None => Seq::empty(),
    }) + "\n\n"@ + body
}

/// What the `skill` tool answers for a loaded skill (see `loaded_text`).
pub fn skill_loaded_message(skill: &Skill, body: &str) -> (r: String)
    ensures
        r@ == loaded_text(skill@, body@),
{
    let mut v = to_chars("[Skill `");
    extend_str(&mut v, skill.name.as_str());
    extend_str(&mut v, "` loaded — follow these instructions. ");
    if skill.body.is_some() {
        extend_str(&mut v, "(built-in skill)");
    } else {
        extend_str(&mut v, "Files it mentions live in ");
        extend_str(&mut v, skill.dir.as_str());
    }
    extend_str(&mut v, "]");
    let ghost head = v@;
    match &skill.allowed_tools {
        Some(t) => {
            extend_str(&mut v, "\n[This skill suggests using only these tools: ");
            let ghost tv = str_views(t@);
            let ghost pre = v@;
            let mut i: usize = 0;
            while i < t.len()
                invariant
                    i <= t@.len(),
                    tv == str_views(t@),
                    v@ == pre + join_comma(tv.take(i as int)),
                decreases t@.len() - i,
            {
                proof {
                    assert(tv.take(i + 1).drop_last() =~= tv.take(i as int));
                    assert(tv.take(i + 1).last() == t@[i as int]@);
                }
                let ghost before = v@;
                if i > 0 {
                    extend_str(&mut v, ", ");
                }
                extend_str(&mut v, t[i].as_str());
                proof {
                    if i == 0 {
                        assert(tv.take(1)[0] == t@[0]@);
                        assert(join_comma(tv.take(1)) == t@[0]@);
                        assert(v@ =~= pre + t@[0]@);
                    } else {
                        assert(v@ =~= before + ", "@ + t@[i as int]@);
                    }
                }
                i = i + 1;
            }
            assert(tv.take(t@.len() as int) =~= tv);
            extend_str(&mut v, "]");
        },
        None => {},
    }
    match &skill.model {
        Some(m) => {
            extend_str(&mut v, "\n[This skill suggests model: ");
            extend_str(&mut v, m.as_str());
            extend_str(&mut v, "]");
        },
        None => {},
    }
    extend_str(&mut v, "\n\n");
    extend_str(&mut v, body);
    from_chars(v.as_slice())
}

// ---------------------------------------------------------------------------
// Where skills are found
// ---------------------------------------------------------------------------

/// An `extra_dirs` entry as a directory: `~/` means the home directory (an
/// entry that needs it is skipped when there is none).
pub open spec fn extra_dir(extra: Seq<char>, home: Option<Seq<char>>) -> Option<Seq<char>> {
    if "~/"@.is_prefix_of(extra) {
        match home {
            Some(h) => Some(joined(h, extra.skip(2))),
            None => None,
        }
    } else {
        Some(extra)
    }
}

/// The directory an `extra_dirs` entry names (see `extra_dir`).
pub fn extra_dir_path(extra: &str, home: Option<&str>) -> (r: Option<String>)
    ensures
        r.is_some() == extra_dir(
            extra@,
            match home {
                Some(h) => Some(h@),
                None => None,
            },
        ).is_some(),
        r.is_some() ==> r.unwrap()@ == extra_dir(
            extra@,
            match home {
                Some(h) => Some(h@),
                None => None,
            },
        ).unwrap(),
{
    let cs = to_chars(extra);
    let tilde = to_chars("~/");
    proof {
        reveal_strlit("~/");
    }
    if starts_with_exec(cs.as_slice(), tilde.as_slice()) {
        match home {
            Some(h) => {
                let n = cs.len();
                let rest = from_chars(slice_to_vec(cs.as_slice(), 2, n).as_slice());
                assert(rest@ =~= extra@.skip(2));
                Some(join_path(h, rest.as_str()))
            },
            None => None,
        }
    } else {
        Some(extra.to_string())
    }
}

/// Whether the deep scan of plugin caches descends into a directory of
/// this name: not `node_modules`, and not hidden unless it is the one
/// hidden directory the caller names (the tool-config directory that
/// plugin caches live under).
pub open spec fn descends_into(name: Seq<char>, keep_hidden: Seq<char>) -> bool {
    name != "node_modules"@ && (!(name.len() > 0 && name[0] == '.') || name == keep_hidden)
}

/// See `descends_into`.
pub fn descend_into(name: &str, keep_hidden: &str) -> (r: bool)
    ensures
        r == descends_into(name@, keep_hidden@),
{
    let cs = to_chars(name);
    let hidden = cs.len() > 0 && cs[0] == '.';
    !str_eq(name, "node_modules") && (!hidden || str_eq(name, keep_hidden))
}

// ---------------------------------------------------------------------------
// The `skill` tool's run
// ---------------------------------------------------------------------------

/// What the `skill` tool does next.
pub enum SkillStep {
    /// Answer with this.
    Done(crate::tools::ToolOutput),
    /// The name is unknown: rescan the skill directories (a skill made
    /// mid-session then activates without a restart) and decide again on
    /// the fresh list, with rescanning off.
    Rescan,
    /// Load the instructions of the skill at this index.
    Load(usize),
}

/// The `name` argument, when it is a string.
pub open spec fn name_arg(args: Seq<char>) -> Option<Seq<char>> {
    match crate::json::json_member(args, "name"@) {
        Some(m) => crate::json::json_string_of(m),
        None => None,
    }
}

/// The step for a call with `args` (JSON text) on `skills`: no `name` is
/// an error; a listed name is loaded (the first skill of that name); an
/// unknown one triggers a rescan when the tool may rescan, else an error
/// naming the available skills.
pub open spec fn skill_step_spec(args: Seq<char>, skills: Seq<SkillView>, can_rescan: bool, r: SkillStep) -> bool {
    match name_arg(args) {
        None => r matches SkillStep::Done(o) && o.is_error && o.content@ == "missing `name`"@,
        Some(n) => if has_name(skills, n) {
            r matches SkillStep::Load(i) && 0 <= i < skills.len() && skills[i as int].name == n && forall|j: int|
                0 <= j < i ==> (#[trigger] skills[j]).name != n
        } else if can_rescan {
            r is Rescan
        } else {
            r matches SkillStep::Done(o) && o.is_error && o.content@ == unknown_skill_text(n, skills)
        },
    }
}

/// See `skill_step_spec`.
pub fn skill_step(args: &str, skills: &Vec<Skill>, can_rescan: bool) -> (r: SkillStep)
    ensures
        skill_step_spec(args@, skill_views(skills@), can_rescan, r),
{
    let name = match crate::tool_defs::string_arg(args, "name") {
        Some(n) => n,
        None => {
            return SkillStep::Done(crate::tools::ToolOutput::error("missing `name`"));
        },
    };
    match find_skill(skills, name.as_str()) {
        Some(i) => {
            assert(skill_views(skills@)[i as int].name == name@);
            assert(forall|j: int| 0 <= j < i ==> #[trigger] skill_views(skills@)[j].name == skills@[j].name@);
            SkillStep::Load(i)
        },
        None => if can_rescan {
            SkillStep::Rescan
        } else {
            let m = unknown_skill_message(name.as_str(), skills);
            SkillStep::Done(crate::tools::ToolOutput { content: m, is_error: true })
        },
    }
}

/// What the tool answers once the skill's instructions were read (`Ok`
/// with the body) or could not be (`Err` with why).
pub fn skill_report(skill: &Skill, loaded: &Result<String, String>) -> (r: crate::tools::ToolOutput)
    ensures
        match loaded {
            Ok(body) => !r.is_error && r.content@ == loaded_text(skill@, body@),
            Err(e) => r.is_error && r.content@ == e@,
        },
{
    match loaded {
        Ok(body) => crate::tools::ToolOutput { content: skill_loaded_message(skill, body.as_str()), is_error: false },
        Err(e) => crate::tools::ToolOutput { content: e.clone(), is_error: true },
    }
}

} // verus!
