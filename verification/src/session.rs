//! Session records and how a resume replays them. A session file holds one
//! envelope per line; replaying the records rebuilds the working context,
//! in which a compaction record replaces the range of messages it
//! summarizes while the full history stays on disk.
use vstd::prelude::*;

use crate::model::{msg_views, Message, MessageView, Role};
use crate::paths::{file_name, file_name_exec, join_path, joined};
use crate::text::{
    chars_eq, extend_str, from_chars, lines, lines_exec, push_decimal, rfind, rfind_exec, slice_to_vec,
    to_chars, trim, trim_exec, views,
};

verus! {

/// One record of a session file.
pub enum Record {
    Meta { session_id: String, cwd: String, model: String },
    Message { message: Message },
    /// Summary replacing the messages in the seq range `[from_seq, to_seq]`.
    Compaction { from_seq: u64, to_seq: u64, replacement: Vec<Message> },
    ModeChange { mode: String },
    ModelChange { model: String },
}

/// A record with its sequence number and time stamp.
pub struct Envelope {
    pub seq: u64,
    pub ts: String,
    pub record: Record,
}

/// What replay reads of a record.
pub enum RecordView {
    Meta { session_id: Seq<char> },
    Message { message: MessageView },
    Compaction { from_seq: u64, to_seq: u64, replacement: Seq<MessageView> },
    Other,
}

impl View for Record {
    type V = RecordView;

    open spec fn view(&self) -> RecordView {
        match self {
            Record::Meta { session_id, .. } => RecordView::Meta { session_id: session_id@ },
            Record::Message { message } => RecordView::Message { message: message@ },
            Record::Compaction { from_seq, to_seq, replacement } => RecordView::Compaction {
                from_seq: *from_seq,
                to_seq: *to_seq,
                replacement: msg_views(replacement@),
            },
            _ => RecordView::Other,
        }
    }
}

pub struct EnvelopeView {
    pub seq: u64,
    pub record: RecordView,
}

impl View for Envelope {
    type V = EnvelopeView;

    open spec fn view(&self) -> EnvelopeView {
        EnvelopeView { seq: self.seq, record: self.record@ }
    }
}

pub open spec fn envelope_views(es: Seq<Envelope>) -> Seq<EnvelopeView> {
    es.map_values(|e: Envelope| e@)
}

/// A message of the working context with the seq it was recorded under.
pub type Entry = (u64, MessageView);

pub open spec fn outside(e: Entry, from: u64, to: u64) -> bool {
    e.0 < from || e.0 > to
}

/// The entries whose seq lies outside `[from, to]`, in order.
pub open spec fn keep_outside(s: Seq<Entry>, from: u64, to: u64) -> Seq<Entry>
    decreases s.len(),
{
    if s.len() == 0 {
        s
    } else {
        let r = keep_outside(s.drop_last(), from, to);
        if outside(s.last(), from, to) {
            r.push(s.last())
        } else {
            r
        }
    }
}

/// How many leading entries have a seq below `from`: where a sorted list
/// would take a new entry with seq `from`.
pub open spec fn count_before(s: Seq<Entry>, from: u64) -> nat
    decreases s.len(),
{
    if s.len() == 0 {
        0
    } else if s[0].0 < from {
        1 + count_before(s.drop_first(), from)
    } else {
        0
    }
}

pub open spec fn tagged(rep: Seq<MessageView>, seq: u64) -> Seq<Entry> {
    rep.map_values(|m: MessageView| (seq, m))
}

/// The context after a compaction of `[from, to]`: the range is dropped
/// and the replacement takes its place, under seq `from`.
pub open spec fn splice(s: Seq<Entry>, from: u64, to: u64, rep: Seq<MessageView>) -> Seq<Entry> {
    let kept = keep_outside(s, from, to);
    let k = count_before(kept, from) as int;
    kept.take(k) + tagged(rep, from) + kept.skip(k)
}

/// The state a replay carries: the last session id met, the highest seq
/// and the working context.
pub struct ReplayView {
    pub session_id: Option<Seq<char>>,
    pub last_seq: u64,
    pub entries: Seq<Entry>,
}

pub open spec fn replay_step(st: ReplayView, e: EnvelopeView) -> ReplayView {
    let last_seq = if e.seq > st.last_seq { e.seq } else { st.last_seq };
    match e.record {
        RecordView::Meta { session_id } => ReplayView {
            session_id: Some(session_id),
            last_seq,
            entries: st.entries,
        },
        RecordView::Message { message } => ReplayView {
            session_id: st.session_id,
            last_seq,
            entries: st.entries.push((e.seq, message)),
        },
        RecordView::Compaction { from_seq, to_seq, replacement } => ReplayView {
            session_id: st.session_id,
            last_seq,
            entries: splice(st.entries, from_seq, to_seq, replacement),
        },
        RecordView::Other => ReplayView { session_id: st.session_id, last_seq, entries: st.entries },
    }
}

/// Replaying a list of envelopes from an empty state.
pub open spec fn replay_spec(es: Seq<EnvelopeView>) -> ReplayView
    decreases es.len(),
{
    if es.len() == 0 {
        ReplayView { session_id: None, last_seq: 0, entries: Seq::empty() }
    } else {
        replay_step(replay_spec(es.drop_last()), es.last())
    }
}

pub open spec fn contents(s: Seq<Entry>) -> Seq<MessageView> {
    s.map_values(|e: Entry| e.1)
}

/// What a resume reconstructs.
pub struct Replay {
    /// The id of the last meta record; `None` when the file has none.
    pub session_id: Option<String>,
    /// The highest seq in the file (0 for an empty file).
    pub last_seq: u64,
    /// The working context.
    pub messages: Vec<Message>,
}

pub open spec fn entry_views(v: Seq<(u64, Message)>) -> Seq<Entry> {
    v.map_values(|p: (u64, Message)| (p.0, p.1@))
}

fn copy_entry(p: &(u64, Message)) -> (r: (u64, Message))
    ensures
        r.0 == p.0,
        r.1@ == p.1@,
{
    (p.0, p.1.copy())
}

/// The entries outside `[from, to]`.
fn keep_outside_exec(s: &Vec<(u64, Message)>, from: u64, to: u64) -> (r: Vec<(u64, Message)>)
    ensures
        entry_views(r@) == keep_outside(entry_views(s@), from, to),
{
    let mut r: Vec<(u64, Message)> = Vec::new();
    let mut i: usize = 0;
    while i < s.len()
        invariant
            i <= s@.len(),
            entry_views(r@) == keep_outside(entry_views(s@).take(i as int), from, to),
        decreases s@.len() - i,
    {
        let ghost pre = entry_views(s@).take(i as int);
        assert(entry_views(s@).take(i + 1).drop_last() =~= pre);
        if s[i].0 < from || s[i].0 > to {
            let ghost before = r@;
            r.push(copy_entry(&s[i]));
            assert(entry_views(r@) =~= entry_views(before).push(entry_views(s@)[i as int]));
        }
        i = i + 1;
    }
    assert(entry_views(s@).take(s@.len() as int) =~= entry_views(s@));
    r
}

proof fn lemma_count_before_take(s: Seq<Entry>, from: u64, i: int)
    requires
        0 <= i <= s.len(),
        forall|j: int| 0 <= j < i ==> (#[trigger] s[j]).0 < from,
    ensures
        count_before(s, from) == i + count_before(s.skip(i), from),
    decreases i,
{
    if i > 0 {
        assert(s[0].0 < from);
        let t = s.drop_first();
        assert forall|j: int| 0 <= j < i - 1 implies (#[trigger] t[j]).0 < from by {
            assert(t[j] == s[j + 1]);
        }
        lemma_count_before_take(t, from, i - 1);
        assert(t.skip(i - 1) =~= s.skip(i));
    } else {
        assert(s.skip(0) =~= s);
    }
}

fn count_before_exec(s: &Vec<(u64, Message)>, from: u64) -> (k: usize)
    ensures
        k as nat == count_before(entry_views(s@), from),
        k <= s@.len(),
{
    let ghost v = entry_views(s@);
    let mut k: usize = 0;
    while k < s.len() && s[k].0 < from
        invariant
            k <= s@.len(),
            v == entry_views(s@),
            forall|j: int| 0 <= j < k ==> (#[trigger] v[j]).0 < from,
        decreases s@.len() - k,
    {
        k = k + 1;
    }
    proof {
        lemma_count_before_take(v, from, k as int);
        let rest = v.skip(k as int);
        if rest.len() > 0 {
            assert(rest[0] == v[k as int]);
        }
    }
    k
}

/// The working context after a compaction record.
fn splice_exec(s: &Vec<(u64, Message)>, from: u64, to: u64, rep: &Vec<Message>) -> (r: Vec<(u64, Message)>)
    ensures
        entry_views(r@) == splice(entry_views(s@), from, to, msg_views(rep@)),
{
    let kept = keep_outside_exec(s, from, to);
    let k = count_before_exec(&kept, from);
    let ghost kv = entry_views(kept@);
    let mut r: Vec<(u64, Message)> = Vec::new();
    let mut i: usize = 0;
    while i < k
        invariant
            i <= k <= kept@.len(),
            kv == entry_views(kept@),
            entry_views(r@) =~= kv.take(i as int),
        decreases k - i,
    {
        let ghost before = r@;
        r.push(copy_entry(&kept[i]));
        assert(entry_views(r@) =~= entry_views(before).push(kv[i as int]));
        assert(kv.take(i + 1) =~= kv.take(i as int).push(kv[i as int]));
        i = i + 1;
    }
    let ghost t = tagged(msg_views(rep@), from);
    let mut j: usize = 0;
    while j < rep.len()
        invariant
            j <= rep@.len(),
            k <= kept@.len(),
            kv == entry_views(kept@),
            t == tagged(msg_views(rep@), from),
            entry_views(r@) =~= kv.take(k as int) + t.take(j as int),
        decreases rep@.len() - j,
    {
        let ghost before = r@;
        r.push((from, rep[j].copy()));
        assert(entry_views(r@) =~= entry_views(before).push(t[j as int]));
        assert(t.take(j + 1) =~= t.take(j as int).push(t[j as int]));
        j = j + 1;
    }
    assert(t.take(rep@.len() as int) =~= t);
    let mut i: usize = k;
    while i < kept.len()
        invariant
            k <= i <= kept@.len(),
            kv == entry_views(kept@),
            t == tagged(msg_views(rep@), from),
            entry_views(r@) =~= kv.take(k as int) + t + kv.subrange(k as int, i as int),
        decreases kept@.len() - i,
    {
        let ghost before = r@;
        r.push(copy_entry(&kept[i]));
        assert(entry_views(r@) =~= entry_views(before).push(kv[i as int]));
        assert(kv.subrange(k as int, i + 1) =~= kv.subrange(k as int, i as int).push(kv[i as int]));
        i = i + 1;
    }
    assert(kv.subrange(k as int, kept@.len() as int) =~= kv.skip(k as int));
    r
}

fn copy_messages(v: &Vec<(u64, Message)>) -> (r: Vec<Message>)
    ensures
        msg_views(r@) == contents(entry_views(v@)),
{
    let mut r: Vec<Message> = Vec::new();
    let mut i: usize = 0;
    while i < v.len()
        invariant
            i <= v@.len(),
            msg_views(r@) =~= contents(entry_views(v@)).take(i as int),
        decreases v@.len() - i,
    {
        let ghost before = r@;
        r.push(v[i].1.copy());
        assert(msg_views(r@) =~= msg_views(before).push(v@[i as int].1@));
        i = i + 1;
    }
    r
}

/// Replay the envelopes of a session file, in file order.
pub fn replay(es: &Vec<Envelope>) -> (r: Replay)
    ensures
        opt_string_view(r.session_id) == replay_spec(envelope_views(es@)).session_id,
        r.last_seq == replay_spec(envelope_views(es@)).last_seq,
        msg_views(r.messages@) == contents(replay_spec(envelope_views(es@)).entries),
{
    let mut id: Option<String> = None;
    let mut last: u64 = 0;
    let mut entries: Vec<(u64, Message)> = Vec::new();
    let mut i: usize = 0;
    while i < es.len()
        invariant
            i <= es@.len(),
            opt_string_view(id) == replay_spec(envelope_views(es@).take(i as int)).session_id,
            last == replay_spec(envelope_views(es@).take(i as int)).last_seq,
            entry_views(entries@) == replay_spec(envelope_views(es@).take(i as int)).entries,
        decreases es@.len() - i,
    {
        let e = &es[i];
        proof {
            assert(envelope_views(es@).take(i + 1).drop_last() =~= envelope_views(es@).take(i as int));
            assert(envelope_views(es@).take(i + 1).last() == e@);
        }
        if e.seq > last {
            last = e.seq;
        }
        match &e.record {
            Record::Meta { session_id, .. } => {
                id = Some(session_id.clone());
            },
            Record::Message { message } => {
                let ghost before = entries@;
                entries.push((e.seq, message.copy()));
                assert(entry_views(entries@) =~= entry_views(before).push((e.seq, message@)));
            },
            Record::Compaction { from_seq, to_seq, replacement } => {
                entries = splice_exec(&entries, *from_seq, *to_seq, replacement);
            },
            _ => {},
        }
        i = i + 1;
    }
    assert(envelope_views(es@).take(es@.len() as int) =~= envelope_views(es@));
    Replay { session_id: id, last_seq: last, messages: copy_messages(&entries) }
}

pub open spec fn opt_string_view(o: Option<String>) -> Option<Seq<char>> {
    match o {
        Some(s) => Some(s@),
        None => None,
    }
}

// ---------------------------------------------------------------------------
// Reading a session file
// ---------------------------------------------------------------------------

/// The lines of a session file that hold a record: every line that is not
/// blank, with its 1-based line number.
pub open spec fn record_lines(ls: Seq<Seq<char>>) -> Seq<(int, Seq<char>)>
    decreases ls.len(),
{
    if ls.len() == 0 {
        Seq::empty()
    } else {
        let r = record_lines(ls.drop_last());
        if trim(ls.last()).len() == 0 {
            r
        } else {
            r.push((ls.len() as int, ls.last()))
        }
    }
}

pub open spec fn numbered_views(v: Seq<(usize, String)>) -> Seq<(int, Seq<char>)> {
    v.map_values(|p: (usize, String)| (p.0 as int, p.1@))
}

/// The record lines of `content`, numbered as in the file.
pub fn record_lines_of(content: &str) -> (r: Vec<(usize, String)>)
    ensures
        numbered_views(r@) == record_lines(lines(content@)),
{
    let chars = to_chars(content);
    let ls = lines_exec(chars.as_slice());
    let ghost lv = views(ls@);
    let mut r: Vec<(usize, String)> = Vec::new();
    let mut i: usize = 0;
    while i < ls.len()
        invariant
            i <= ls@.len(),
            lv == views(ls@),
            lv == lines(content@),
            numbered_views(r@) == record_lines(lv.take(i as int)),
        decreases ls@.len() - i,
    {
        proof {
            assert(lv.take(i + 1).drop_last() =~= lv.take(i as int));
            assert(lv.take(i + 1).last() == ls@[i as int]@);
        }
        let t = trim_exec(ls[i].as_slice());
        if t.len() > 0 {
            let ghost before = r@;
            r.push((i + 1, from_chars(ls[i].as_slice())));
            assert(numbered_views(r@) =~= numbered_views(before).push(((i + 1) as int, lv[i as int])));
        }
        i = i + 1;
    }
    assert(lv.take(ls@.len() as int) =~= lv);
    r
}

/// The directory holding a project's session files.
pub fn sessions_dir(project_dir: &str) -> (r: String)
    ensures
        r@ == joined(project_dir@, ".rocinante/sessions"@),
{
    join_path(project_dir, ".rocinante/sessions")
}

/// `Path::extension`: what follows the last `.` of the file name, unless
/// the name has no `.` or its only `.` comes first.
pub open spec fn extension(p: Seq<char>) -> Option<Seq<char>> {
    match file_name(p) {
        Some(f) => match rfind(f, seq!['.']) {
            Some(i) => if i > 0 {
                Some(f.skip(i + 1))
            } else {
                None
            },
            None => None,
        },
        None => None,
    }
}

/// Is `p` a session file (extension `jsonl`)?
pub fn is_session_file(p: &str) -> (r: bool)
    ensures
        r == (extension(p@) == Some("jsonl"@)),
{
    proof {
        reveal_strlit("jsonl");
    }
    match file_name_exec(p) {
        Some(f) => {
            let dot = vec!['.'];
            assert(dot@ =~= seq!['.']);
            let ds = dot.as_slice();
            assert(ds@.len() == 1);
            match rfind_exec(f.as_slice(), ds) {
                Some(i) => {
                    if i > 0 {
                        let fl = f.len();
                        assert(i + 1 <= fl);
                        let ext = slice_to_vec(f.as_slice(), i + 1, fl);
                        assert(ext@ =~= f@.skip(i + 1));
                        let want = to_chars("jsonl");
                        chars_eq(ext.as_slice(), want.as_slice())
                    } else {
                        false
                    }
                },
                None => false,
            }
        },
        None => false,
    }
}

/// A modification time: seconds and nanoseconds since the epoch.
pub open spec fn later(a: (u64, u32), b: (u64, u32)) -> bool {
    a.0 > b.0 || (a.0 == b.0 && a.1 > b.1)
}

/// The newest session file among directory entries (path and modification
/// time), scanning in order: a file replaces the pick only when strictly
/// newer, so the first of equally new files stays.
pub open spec fn latest_spec(cands: Seq<(Seq<char>, (u64, u32))>) -> Option<(Seq<char>, (u64, u32))>
    decreases cands.len(),
{
    if cands.len() == 0 {
        None
    } else {
        let prev = latest_spec(cands.drop_last());
        let c = cands.last();
        if extension(c.0) == Some("jsonl"@) && match prev {
            Some(p) => later(c.1, p.1),
            None => true,
        } {
            Some(c)
        } else {
            prev
        }
    }
}

pub open spec fn cand_views(v: Seq<(String, (u64, u32))>) -> Seq<(Seq<char>, (u64, u32))> {
    v.map_values(|c: (String, (u64, u32))| (c.0@, c.1))
}

/// The newest session file, or `None` when there is none.
pub fn pick_latest(cands: &Vec<(String, (u64, u32))>) -> (r: Option<String>)
    ensures
        match latest_spec(cand_views(cands@)) {
            Some(c) => r.is_some() && r.unwrap()@ == c.0,
            None => r.is_none(),
        },
{
    let ghost cv = cand_views(cands@);
    let mut best: Option<(usize, (u64, u32))> = None;
    let mut i: usize = 0;
    while i < cands.len()
        invariant
            i <= cands@.len(),
            cv == cand_views(cands@),
            match latest_spec(cv.take(i as int)) {
                Some(c) => best.is_some() && best.unwrap().0 < i && cv[best.unwrap().0 as int] == c
                    && best.unwrap().1 == c.1,
                None => best.is_none(),
            },
        decreases cands@.len() - i,
    {
        proof {
            assert(cv.take(i + 1).drop_last() =~= cv.take(i as int));
            assert(cv.take(i + 1).last() == cv[i as int]);
        }
        let t = cands[i].1;
        if is_session_file(cands[i].0.as_str()) {
            let newer = match best {
                Some((_, bt)) => t.0 > bt.0 || (t.0 == bt.0 && t.1 > bt.1),
                None => true,
            };
            if newer {
                best = Some((i, t));
            }
        }
        i = i + 1;
    }
    assert(cv.take(cands@.len() as int) =~= cv);
    match best {
        Some((k, _)) => Some(cands[k].0.clone()),
        None => None,
    }
}

/// Does a resumed context end awaiting an assistant reply, that is, was
/// the session cut mid-turn?
pub fn ends_mid_turn(messages: &Vec<Message>) -> (r: bool)
    ensures
        r == (messages@.len() > 0 && (messages@.last().role == Role::User
            || messages@.last().role == Role::Tool)),
{
    if messages.len() == 0 {
        false
    } else {
        let role = messages[messages.len() - 1].role;
        match role {
            Role::User | Role::Tool => true,
            _ => false,
        }
    }
}

/// Which session a frontend starts on.
#[derive(Debug, Clone, Copy, PartialEq, Eq)]
pub enum SessionChoice {
    New,
    /// `--continue`: the most recent session of the project.
    Continue,
}

/// What a frontend shows of a resumed session.
#[derive(Debug)]
pub struct ResumeInfo {
    pub session_id: String,
    pub message_count: usize,
    pub mid_turn: bool,
}

impl ResumeInfo {
    /// The summary of a resumed session's context.
    pub fn of(session_id: &str, messages: &Vec<Message>) -> (r: ResumeInfo)
        ensures
            r.session_id@ == session_id@,
            r.message_count == messages@.len(),
            r.mid_turn == (messages@.len() > 0 && (messages@.last().role == Role::User
                || messages@.last().role == Role::Tool)),
    {
        ResumeInfo {
            session_id: session_id.to_string(),
            message_count: messages.len(),
            mid_turn: ends_mid_turn(messages),
        }
    }
}

/// Why a session could not be used.
#[derive(Debug, Clone, PartialEq, Eq)]
pub enum SessionError {
    Io(String),
    Corrupt { line: usize, error: String },
    NoSessions(String),
}

pub open spec fn session_error_text(e: SessionError) -> Seq<char> {
    match e {
        SessionError::Io(m) => "session io error: "@ + m@,
        SessionError::Corrupt { line, error } => "corrupt session line "@ + crate::text::decimal(
            line as nat,
        ) + ": "@ + error@,
        SessionError::NoSessions(dir) => "no sessions found in "@ + dir@,
    }
}

impl SessionError {
    /// The message shown for the error.
    pub fn message(&self) -> (r: String)
        ensures
            r@ == session_error_text(*self),
    {
        let mut v: Vec<char> = Vec::new();
        match self {
            SessionError::Io(m) => {
                extend_str(&mut v, "session io error: ");
                extend_str(&mut v, m.as_str());
            },
            SessionError::Corrupt { line, error } => {
                extend_str(&mut v, "corrupt session line ");
                push_decimal(&mut v, *line as u64);
                extend_str(&mut v, ": ");
                extend_str(&mut v, error.as_str());
            },
            SessionError::NoSessions(dir) => {
                extend_str(&mut v, "no sessions found in ");
                extend_str(&mut v, dir.as_str());
            },
        }
        proof {
            reveal_strlit("session io error: ");
            reveal_strlit("corrupt session line ");
            reveal_strlit(": ");
            reveal_strlit("no sessions found in ");
        }
        from_chars(v.as_slice())
    }
}

// ---------------------------------------------------------------------------
// The compaction law
// ---------------------------------------------------------------------------

/// Entries in nondecreasing seq order, as a session file records them.
pub open spec fn sorted(s: Seq<Entry>) -> bool {
    forall|i: int, j: int| 0 <= i <= j < s.len() ==> (#[trigger] s[i]).0 <= (#[trigger] s[j]).0
}

/// The entries with a seq below `from`.
pub open spec fn below(s: Seq<Entry>, from: u64) -> Seq<Entry>
    decreases s.len(),
{
    if s.len() == 0 {
        s
    } else if s.last().0 < from {
        below(s.drop_last(), from).push(s.last())
    } else {
        below(s.drop_last(), from)
    }
}

/// The entries with a seq above `to`.
pub open spec fn above(s: Seq<Entry>, to: u64) -> Seq<Entry>
    decreases s.len(),
{
    if s.len() == 0 {
        s
    } else if s.last().0 > to {
        above(s.drop_last(), to).push(s.last())
    } else {
        above(s.drop_last(), to)
    }
}

proof fn lemma_all_below(s: Seq<Entry>, from: u64)
    requires
        forall|i: int| 0 <= i < s.len() ==> (#[trigger] s[i]).0 < from,
    ensures
        below(s, from) == s,
    decreases s.len(),
{
    if s.len() > 0 {
        lemma_all_below(s.drop_last(), from);
        assert(s.drop_last().push(s.last()) =~= s);
    }
}

proof fn lemma_none_above(s: Seq<Entry>, to: u64)
    requires
        forall|i: int| 0 <= i < s.len() ==> (#[trigger] s[i]).0 <= to,
    ensures
        above(s, to).len() == 0,
    decreases s.len(),
{
    if s.len() > 0 {
        lemma_none_above(s.drop_last(), to);
    }
}

proof fn lemma_sorted_drop_last(s: Seq<Entry>)
    requires
        sorted(s),
        s.len() > 0,
    ensures
        sorted(s.drop_last()),
        forall|i: int| 0 <= i < s.len() - 1 ==> (#[trigger] s.drop_last()[i]).0 <= s.last().0,
{
    let t = s.drop_last();
    assert forall|i: int, j: int| 0 <= i <= j < t.len() implies (#[trigger] t[i]).0 <= (#[trigger] t[j]).0 by {
        assert(t[i] == s[i] && t[j] == s[j]);
    }
    assert forall|i: int| 0 <= i < s.len() - 1 implies (#[trigger] t[i]).0 <= s.last().0 by {
        assert(t[i] == s[i]);
        assert(s.last() == s[s.len() - 1]);
    }
}

proof fn lemma_below_bound(s: Seq<Entry>, from: u64, m: u64)
    requires
        forall|i: int| 0 <= i < s.len() ==> (#[trigger] s[i]).0 <= m,
    ensures
        forall|i: int| 0 <= i < below(s, from).len() ==> (#[trigger] below(s, from)[i]).0 <= m,
    decreases s.len(),
{
    if s.len() > 0 {
        let t = s.drop_last();
        assert forall|i: int| 0 <= i < t.len() implies (#[trigger] t[i]).0 <= m by {
            assert(t[i] == s[i]);
        }
        lemma_below_bound(t, from, m);
        let b = below(s, from);
        let bt = below(t, from);
        assert forall|i: int| 0 <= i < b.len() implies (#[trigger] b[i]).0 <= m by {
            if i < bt.len() {
                assert(b[i] == bt[i]);
            } else {
                assert(b[i] == s.last());
                assert(s.last() == s[s.len() - 1]);
            }
        }
    }
}

proof fn lemma_above_bound(s: Seq<Entry>, to: u64, m: u64)
    requires
        forall|i: int| 0 <= i < s.len() ==> (#[trigger] s[i]).0 <= m,
    ensures
        forall|i: int| 0 <= i < above(s, to).len() ==> (#[trigger] above(s, to)[i]).0 <= m,
    decreases s.len(),
{
    if s.len() > 0 {
        let t = s.drop_last();
        assert forall|i: int| 0 <= i < t.len() implies (#[trigger] t[i]).0 <= m by {
            assert(t[i] == s[i]);
        }
        lemma_above_bound(t, to, m);
        let a = above(s, to);
        let at = above(t, to);
        assert forall|i: int| 0 <= i < a.len() implies (#[trigger] a[i]).0 <= m by {
            if i < at.len() {
                assert(a[i] == at[i]);
            } else {
                assert(a[i] == s.last());
                assert(s.last() == s[s.len() - 1]);
            }
        }
    }
}

proof fn lemma_below_sorted(s: Seq<Entry>, from: u64)
    requires
        sorted(s),
    ensures
        sorted(below(s, from)),
    decreases s.len(),
{
    if s.len() > 0 {
        let t = s.drop_last();
        lemma_sorted_drop_last(s);
        lemma_below_sorted(t, from);
        lemma_below_bound(t, from, s.last().0);
        let b = below(s, from);
        let bt = below(t, from);
        if s.last().0 < from {
            assert forall|i: int, j: int| 0 <= i <= j < b.len() implies (#[trigger] b[i]).0 <= (#[trigger] b[j]).0 by {
                if j < bt.len() {
                    assert(b[i] == bt[i] && b[j] == bt[j]);
                } else if i < bt.len() {
                    assert(b[i] == bt[i]);
                }
            }
        }
    }
}

proof fn lemma_above_sorted(s: Seq<Entry>, to: u64)
    requires
        sorted(s),
    ensures
        sorted(above(s, to)),
    decreases s.len(),
{
    if s.len() > 0 {
        let t = s.drop_last();
        lemma_sorted_drop_last(s);
        lemma_above_sorted(t, to);
        lemma_above_bound(t, to, s.last().0);
        let a = above(s, to);
        let at = above(t, to);
        if s.last().0 > to {
            assert forall|i: int, j: int| 0 <= i <= j < a.len() implies (#[trigger] a[i]).0 <= (#[trigger] a[j]).0 by {
                if j < at.len() {
                    assert(a[i] == at[i] && a[j] == at[j]);
                } else if i < at.len() {
                    assert(a[i] == at[i]);
                }
            }
        }
    }
}

/// On sorted entries the kept part of a compaction is what lies below the
/// range followed by what lies above it.
proof fn lemma_keep_split(s: Seq<Entry>, from: u64, to: u64)
    requires
        sorted(s),
        from <= to,
    ensures
        keep_outside(s, from, to) == below(s, from) + above(s, to),
        forall|i: int| 0 <= i < below(s, from).len() ==> (#[trigger] below(s, from)[i]).0 < from,
        forall|i: int| 0 <= i < above(s, to).len() ==> (#[trigger] above(s, to)[i]).0 > to,
    decreases s.len(),
{
    if s.len() > 0 {
        let t = s.drop_last();
        let x = s.last();
        lemma_sorted_drop_last(s);
        lemma_keep_split(t, from, to);
        let bt = below(t, from);
        let at = above(t, to);
        if x.0 < from {
            assert forall|i: int| 0 <= i < t.len() implies (#[trigger] t[i]).0 <= to by {
                assert(t[i].0 <= x.0);
            }
            lemma_none_above(t, to);
            assert(at =~= Seq::<Entry>::empty());
            assert(keep_outside(s, from, to) == keep_outside(t, from, to).push(x));
            assert((bt + at).push(x) =~= bt.push(x) + at);
            let b = below(s, from);
            assert(b == bt.push(x));
            assert forall|i: int| 0 <= i < b.len() implies (#[trigger] b[i]).0 < from by {
                if i < bt.len() {
                    assert(b[i] == bt[i]);
                }
            }
        } else if x.0 > to {
            assert(keep_outside(s, from, to) == keep_outside(t, from, to).push(x));
            assert((bt + at).push(x) =~= bt + at.push(x));
            let a = above(s, to);
            assert(a == at.push(x));
            assert forall|i: int| 0 <= i < a.len() implies (#[trigger] a[i]).0 > to by {
                if i < at.len() {
                    assert(a[i] == at[i]);
                }
            }
        }
    }
}

proof fn lemma_count_prefix(a: Seq<Entry>, b: Seq<Entry>, from: u64)
    requires
        forall|i: int| 0 <= i < a.len() ==> (#[trigger] a[i]).0 < from,
        b.len() > 0 ==> b[0].0 >= from,
    ensures
        count_before(a + b, from) == a.len(),
    decreases a.len(),
{
    if a.len() == 0 {
        assert(a + b =~= b);
    } else {
        assert((a + b)[0] == a[0]);
        assert((a + b).drop_first() =~= a.drop_first() + b);
        let t = a.drop_first();
        assert forall|i: int| 0 <= i < t.len() implies (#[trigger] t[i]).0 < from by {
            assert(t[i] == a[i + 1]);
        }
        lemma_count_prefix(t, b, from);
    }
}

/// Compaction law: on a context in seq order, a compaction of `[from, to]`
/// leaves the messages recorded before the range, then the replacement,
/// then the messages recorded after the range, and keeps the seq order.
pub proof fn law_compaction_replaces_range(s: Seq<Entry>, from: u64, to: u64, rep: Seq<MessageView>)
    requires
        sorted(s),
        from <= to,
    ensures
        contents(splice(s, from, to, rep)) == contents(below(s, from)) + rep + contents(above(s, to)),
        sorted(splice(s, from, to, rep)),
{
    lemma_keep_split(s, from, to);
    lemma_below_sorted(s, from);
    lemma_above_sorted(s, to);
    let b = below(s, from);
    let a = above(s, to);
    let kept = keep_outside(s, from, to);
    if a.len() > 0 {
        assert(a[0].0 > to);
    }
    lemma_count_prefix(b, a, from);
    assert(kept.take(b.len() as int) =~= b);
    assert(kept.skip(b.len() as int) =~= a);
    let t = tagged(rep, from);
    let r = splice(s, from, to, rep);
    assert(r == b + t + a);
    assert(contents(b + t + a) =~= contents(b) + rep + contents(a));
    assert forall|i: int, j: int| 0 <= i <= j < r.len() implies (#[trigger] r[i]).0 <= (#[trigger] r[j]).0 by {
        let nb = b.len() as int;
        let nt = t.len() as int;
        if i < nb {
            assert(r[i] == b[i]);
        } else if i < nb + nt {
            assert(r[i] == t[i - nb]);
        } else {
            assert(r[i] == a[i - nb - nt]);
        }
        if j < nb {
            assert(r[j] == b[j]);
        } else if j < nb + nt {
            assert(r[j] == t[j - nb]);
        } else {
            assert(r[j] == a[j - nb - nt]);
        }
    }
}

} // verus!
