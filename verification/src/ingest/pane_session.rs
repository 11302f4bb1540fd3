//! Resolving a focused tmux pane to the agent session running inside it.
//!
//! A pane's process tree identifies its session through two channels:
//!
//! - **An environment variable.** Some harnesses stamp their session id on their
//!   own process.
//! - **An open transcript.** Others hold their session's transcript open, and the
//!   name of that file carries the session id
//!   (`<sessions_dir>/<cwd-slug>/<timestamp>_<uuid>.jsonl`).
//!
//! Either way this is an identity, not an inference: nothing here derives a
//! stream.
use std::collections::HashSet;

use vstd::prelude::*;
use vstd::std_specs::hash::*;
use vstd::string::*;

use crate::text;

verus! {

/// Processes whose environment may be read for one lookup.
pub const MAX_PROCESSES: usize = 64;

/// Generations walked below the pane's own process.
pub const MAX_DEPTH: u32 = 8;

/// File descriptors examined per process.
pub const MAX_FDS: usize = 256;

/// The process facts that the walk needs, so that it can be driven without real
/// processes.
pub trait ProcessSource {
    /// Direct children of `pid`. Empty when `pid` has none or cannot be read: the
    /// two are the same to the walk.
    fn children(&self, pid: u32) -> Vec<u32>;

    /// The raw NUL-separated environment block of `pid`, or `None` when it cannot
    /// be read.
    fn environ(&self, pid: u32) -> Option<Vec<u8>>;

    /// Paths of the `.jsonl` files that `pid` holds open for writing. A source that
    /// does not look for them gives none.
    fn open_file_paths(&self, _pid: u32) -> (r: Vec<String>)
        default_ensures
            r@ == Seq::<String>::empty(),
    {
        Vec::new()
    }
}

/// Whether an environment entry of this name holds a session id.
pub open spec fn is_session_name(name: Seq<u8>) -> bool {
    name == "OPENCODE_SESSION_ID".spec_bytes() || name == "CLAUDE_CODE_SESSION_ID".spec_bytes()
}

/// The session id that one environment entry gives: the entry is named exactly
/// by one of the session variables, and its value is text and not empty.
pub open spec fn entry_session(entry: Seq<u8>) -> Option<Seq<char>> {
    let k = text::seek(entry, 0x3d, 0);
    let value = entry.skip(k + 1);
    if k < entry.len() && is_session_name(entry.take(k)) && value.len() > 0
        && vstd::utf8::valid_utf8(value) {
        Some(vstd::utf8::decode_utf8(value))
    } else {
        None
    }
}

/// The session id of the first entry that gives one.
pub open spec fn first_session(entries: Seq<Seq<u8>>) -> Option<Seq<char>>
    decreases entries.len(),
{
    if entries.len() == 0 {
        None
    } else if entry_session(entries[0]) is Some {
        entry_session(entries[0])
    } else {
        first_session(entries.skip(1))
    }
}

/// The session id in a NUL-separated environment block.
pub open spec fn session_in_environ(raw: Seq<u8>) -> Option<Seq<char>> {
    first_session(text::pieces(raw, 0))
}

/// `bytes[from..to]`.
fn copy_bytes(bytes: &[u8], from: usize, to: usize) -> (r: Vec<u8>)
    requires
        from <= to <= bytes@.len(),
    ensures
        r@ == bytes@.subrange(from as int, to as int),
{
    let mut out: Vec<u8> = Vec::new();
    let mut i: usize = from;
    while i < to
        invariant
            from <= i <= to <= bytes@.len(),
            out@ == bytes@.subrange(from as int, i as int),
        decreases to - i,
    {
        out.push(bytes[i]);
        i += 1;
    }
    out
}

/// Whether two byte strings are equal.
fn same_bytes(a: &[u8], b: &[u8]) -> (r: bool)
    ensures
        r == (a@ == b@),
{
    if a.len() != b.len() {
        return false;
    }
    let mut i: usize = 0;
    while i < a.len()
        invariant
            a@.len() == b@.len(),
            i <= a@.len(),
            forall|j: int| 0 <= j < i ==> a@[j] == b@[j],
        decreases a@.len() - i,
    {
        if a[i] != b[i] {
            return false;
        }
        i += 1;
    }
    proof {
        assert(a@ =~= b@);
    }
    true
}

fn session_of_entry(raw: &[u8], from: usize, to: usize) -> (r: Option<String>)
    requires
        from <= to <= raw@.len(),
    ensures
        text::opt_text(r) == entry_session(raw@.subrange(from as int, to as int)),
{
    let entry = copy_bytes(raw, from, to);
    let k: usize = text::find_byte(entry.as_slice(), 0x3d, 0);
    if k >= entry.len() {
        return None;
    }
    let name = copy_bytes(entry.as_slice(), 0, k);
    proof {
        assert(name@ =~= entry@.take(k as int));
    }
    if !same_bytes(name.as_slice(), "OPENCODE_SESSION_ID".as_bytes()) && !same_bytes(
        name.as_slice(),
        "CLAUDE_CODE_SESSION_ID".as_bytes(),
    ) {
        return None;
    }
    if k + 1 == entry.len() {
        return None;
    }
    let value = copy_bytes(entry.as_slice(), k + 1, entry.len());
    proof {
        assert(value@ =~= entry@.skip(k + 1));
    }
    text::utf8_text(value)
}

/// Extracts an agent session id from one process's raw environment block.
///
/// The block is matched by entry name, never by substring, and nothing but the
/// value of an entry named exactly by a session variable comes back. An
/// exported but empty variable is not a session.
pub fn session_id_in_environ(raw: &[u8]) -> (r: Option<String>)
    ensures
        text::opt_text(r) == session_in_environ(raw@),
{
    let mut start: usize = 0;
    proof {
        assert(raw@.skip(0) =~= raw@);
    }
    loop
        invariant
            start <= raw@.len(),
            session_in_environ(raw@) == session_in_environ(raw@.skip(start as int)),
        decreases raw@.len() - start,
    {
        let end: usize = text::find_byte(raw, 0, start);
        let ghost rest = raw@.skip(start as int);
        proof {
            text::seek_in_suffix(raw@, 0u8, start as int, 0);
            assert(rest.take(end - start) =~= raw@.subrange(start as int, end as int));
            let entries = text::pieces(rest, 0u8);
            if end < raw@.len() {
                assert(rest.skip(end - start + 1) =~= raw@.skip(end + 1));
                assert(entries.skip(1) =~= text::pieces(raw@.skip(end + 1), 0u8));
            } else {
                assert(rest =~= rest.take(end - start));
                assert(entries.skip(1) =~= Seq::empty());
                assert(first_session(entries.skip(1)) is None);
            }
        }
        let found = session_of_entry(raw, start, end);
        if found.is_some() || end >= raw.len() {
            return found;
        }
        start = end + 1;
    }
}

/// The parts of a path that name something: empty parts and `.` do not.
pub open spec fn naming_parts(parts: Seq<Seq<char>>) -> Seq<Seq<char>>
    decreases parts.len(),
{
    if parts.len() == 0 {
        Seq::empty()
    } else if parts.last().len() == 0 || parts.last() == seq!['.'] {
        naming_parts(parts.drop_last())
    } else {
        naming_parts(parts.drop_last()).push(parts.last())
    }
}

/// The components of a path: the root as `/`, a leading `.` of a relative path,
/// and the parts that name something.
pub open spec fn components(path: Seq<char>) -> Seq<Seq<char>> {
    let parts = text::pieces(path, '/');
    let lead: Seq<Seq<char>> = if path.len() > 0 && path[0] == '/' {
        seq![seq!['/']]
    } else if parts[0] == seq!['.'] {
        seq![seq!['.']]
    } else {
        Seq::empty()
    };
    lead + naming_parts(parts)
}

fn components_of(path: &str) -> (r: Vec<String>)
    ensures
        text::texts(r@) == components(path@),
{
    let parts = text::pieces_of(path, '/');
    let mut out: Vec<String> = Vec::new();
    proof {
        reveal_strlit("/");
        reveal_strlit(".");
        assert("/"@ =~= seq!['/']);
        assert("."@ =~= seq!['.']);
        assert(text::pieces(path@, '/').len() > 0);
        assert(text::texts(parts@).len() == parts@.len());
        assert(text::texts(parts@)[0] == parts@[0]@);
    }
    if text::starts_with(path, "/") {
        out.push("/".to_owned());
    } else if text::same(parts[0].as_str(), ".") {
        out.push(".".to_owned());
    }
    let ghost lead = text::texts(out@);
    proof {
        assert(path@.len() > 0 && path@[0] == '/' <==> text::stands_at(path@, "/"@, 0)) by {
            if path@.len() > 0 {
                assert(path@.subrange(0, 1)[0] == path@[0]);
                if path@[0] == '/' {
                    assert(path@.subrange(0, 1) =~= seq!['/']);
                }
            }
        }
        let parts_text = text::pieces(path@, '/');
        assert(lead =~= (if path@.len() > 0 && path@[0] == '/' {
            seq![seq!['/']]
        } else if parts_text[0] == seq!['.'] {
            seq![seq!['.']]
        } else {
            Seq::empty()
        }));
        assert(lead + naming_parts(text::texts(parts@).take(0)) =~= lead);
    }
    let mut i: usize = 0;
    while i < parts.len()
        invariant
            i <= parts@.len(),
            "."@ == seq!['.'],
            text::texts(out@) == lead + naming_parts(text::texts(parts@).take(i as int)),
        decreases parts@.len() - i,
    {
        let ghost before = text::texts(out@);
        proof {
            assert(text::texts(parts@).take(i + 1).drop_last() =~= text::texts(parts@).take(
                i as int,
            ));
        }
        if !parts[i].as_str().is_empty() && !text::same(parts[i].as_str(), ".") {
            out.push(parts[i].clone());
            proof {
                assert(text::texts(out@) =~= before.push(parts@[i as int]@));
                assert(text::texts(out@) =~= lead + naming_parts(
                    text::texts(parts@).take(i as int),
                ).push(parts@[i as int]@));
            }
        }
        i += 1;
    }
    proof {
        assert(text::texts(parts@).take(i as int) =~= text::texts(parts@));
    }
    out
}

/// The session id that the name of a transcript carries: the 36 bytes with four
/// dashes behind the last `_` before `.jsonl`.
pub open spec fn transcript_name_session(name: Seq<char>) -> Option<Seq<char>> {
    let stem = name.take(name.len() - 6);
    let k = text::seek_back(stem, '_', stem.len() as int);
    let uuid = stem.skip(k + 1);
    if name.len() > 6 && name.skip(name.len() - 6) == ".jsonl"@ && k >= 0
        && vstd::utf8::encode_utf8(uuid).len() == 36 && text::count(uuid, '-') == 4 {
        Some(uuid)
    } else {
        None
    }
}

/// The session id of an open file, where it is a transcript exactly two
/// components below the sessions directory.
pub open spec fn transcript_session(path: Seq<char>, dir: Seq<char>) -> Option<Seq<char>> {
    let all = components(path);
    let base = components(dir);
    if all.len() == base.len() + 2 && base.is_prefix_of(all) {
        transcript_name_session(all.last())
    } else {
        None
    }
}

fn session_of_transcript_name(name: &str) -> (r: Option<String>)
    ensures
        text::opt_text(r) == transcript_name_session(name@),
{
    let chars = text::chars_of(name);
    let wanted = text::chars_of(".jsonl");
    proof {
        reveal_strlit(".jsonl");
    }
    if chars.len() <= 6 || !text::standing_at(&chars, &wanted, chars.len() - 6) {
        proof {
            if chars@.len() > 6 {
                assert(name@.skip(name@.len() - 6) =~= name@.subrange(
                    name@.len() - 6,
                    name@.len() as int,
                ));
            }
        }
        return None;
    }
    let stem_text = text::string_from(&chars, 0, chars.len() - 6);
    let stem = text::chars_of(stem_text.as_str());
    proof {
        assert(stem@ =~= name@.take(name@.len() - 6));
        assert(name@.skip(name@.len() - 6) =~= name@.subrange(
            name@.len() - 6,
            name@.len() as int,
        ));
    }
    match text::find_last_char(&stem, '_') {
        None => None,
        Some(k) => {
            let uuid = text::string_from(&stem, k + 1, stem.len());
            proof {
                assert(uuid@ =~= stem@.skip(k + 1));
            }
            if uuid.as_str().as_bytes().len() == 36 && text::count_char(uuid.as_str(), '-') == 4 {
                Some(uuid)
            } else {
                None
            }
        },
    }
}

fn session_of_transcript(path: &str, base: &Vec<String>, Ghost(dir): Ghost<Seq<char>>) -> (r: Option<
    String,
>)
    requires
        text::texts(base@) == components(dir),
    ensures
        text::opt_text(r) == transcript_session(path@, dir),
{
    let all = components_of(path);
    proof {
        assert(text::texts(all@).len() == all@.len());
        assert(text::texts(base@).len() == base@.len());
    }
    if all.len() < 2 || all.len() - 2 != base.len() {
        return None;
    }
    let mut i: usize = 0;
    while i < base.len()
        invariant
            i <= base@.len(),
            all@.len() == base@.len() + 2,
            text::texts(all@) == components(path@),
            text::texts(base@) == components(dir),
            forall|j: int| 0 <= j < i ==> all@[j]@ == base@[j]@,
        decreases base@.len() - i,
    {
        if !text::same(all[i].as_str(), base[i].as_str()) {
            proof {
                assert(components(path@)[i as int] == all@[i as int]@);
                assert(components(dir)[i as int] == base@[i as int]@);
            }
            return None;
        }
        i += 1;
    }
    proof {
        assert forall|j: int| 0 <= j < components(dir).len() implies components(dir)[j]
            == components(path@)[j] by {
            assert(components(path@)[j] == all@[j]@);
            assert(components(dir)[j] == base@[j]@);
        }
        assert(components(dir) =~= components(path@).subrange(0, components(dir).len() as int));
        assert(components(path@).last() == all@[all@.len() - 1]@);
    }
    session_of_transcript_name(all[all.len() - 1].as_str())
}

/// What a number of sightings of session ids come to.
pub enum Sighting {
    /// No id was seen.
    Nothing,
    /// Every id seen was this one.
    One(Seq<char>),
    /// Two different ids were seen.
    Conflict,
}

impl Sighting {
    /// These sightings and one more.
    pub open spec fn and(self, seen: Option<Seq<char>>) -> Sighting {
        match (self, seen) {
            (_, None) => self,
            (Sighting::Nothing, Some(id)) => Sighting::One(id),
            (Sighting::One(known), Some(id)) => if known == id {
                self
            } else {
                Sighting::Conflict
            },
            (Sighting::Conflict, _) => Sighting::Conflict,
        }
    }

    /// The id seen, where only one was.
    pub open spec fn id(self) -> Option<Seq<char>> {
        match self {
            Sighting::One(id) => Some(id),
            _ => None,
        }
    }
}

/// What the sightings in `seen` come to.
pub open spec fn sightings(seen: Seq<Option<Seq<char>>>) -> Sighting
    decreases seen.len(),
{
    if seen.len() == 0 {
        Sighting::Nothing
    } else {
        sightings(seen.drop_last()).and(seen.last())
    }
}

/// An id stands for a set of sightings exactly where it was seen and no other
/// was: two different ids are refused, whatever order they were seen in.
pub proof fn an_id_stands_only_unopposed(seen: Seq<Option<Seq<char>>>, id: Seq<char>)
    ensures
        sightings(seen).id() == Some(id) <==> seen.contains(Some(id)) && (forall|i: int|
            #![trigger seen[i]]
            0 <= i < seen.len() && seen[i] is Some ==> seen[i] == Some(id)),
        sightings(seen) is Nothing <==> (forall|i: int|
            #![trigger seen[i]]
            0 <= i < seen.len() ==> seen[i] is None),
    decreases seen.len(),
{
    if seen.len() > 0 {
        let shorter = seen.drop_last();
        an_id_stands_only_unopposed(shorter, id);
        assert(seen.last() == seen[seen.len() - 1]);
        assert forall|i: int| 0 <= i < shorter.len() implies shorter[i] == #[trigger] seen[i] by {}
        match sightings(shorter) {
            Sighting::One(known) => {
                an_id_stands_only_unopposed(shorter, known);
                let k = choose|k: int| 0 <= k < shorter.len() && shorter[k] == Some(known);
                assert(seen[k] == Some(known));
            },
            Sighting::Nothing => {},
            Sighting::Conflict => {
                assert(shorter.len() > 0);
            },
        }
    }
}

/// The sightings of transcripts among open files.
pub open spec fn transcript_sightings(paths: Seq<Seq<char>>, dir: Seq<char>) -> Sighting {
    sightings(paths.map_values(|path: Seq<char>| transcript_session(path, dir)))
}

/// Extracts a session id from one process's open transcripts.
///
/// Only a `.jsonl` exactly two components below `omp_sessions_dir` qualifies, and
/// two different sessions in one process are refused as ambiguous.
pub fn omp_session_in_open_files(paths: &Vec<String>, omp_sessions_dir: &str) -> (r: Option<String>)
    ensures
        text::opt_text(r) == transcript_sightings(text::texts(paths@), omp_sessions_dir@).id(),
{
    let base = components_of(omp_sessions_dir);
    let ghost seen = text::texts(paths@).map_values(
        |path: Seq<char>| transcript_session(path, omp_sessions_dir@),
    );
    let mut found: Option<String> = None;
    let mut i: usize = 0;
    while i < paths.len()
        invariant
            i <= paths@.len(),
            text::texts(base@) == components(omp_sessions_dir@),
            seen == text::texts(paths@).map_values(
                |path: Seq<char>| transcript_session(path, omp_sessions_dir@),
            ),
            sightings(seen.take(i as int)) == match found {
                Some(id) => Sighting::One(id@),
                None => Sighting::Nothing,
            },
        decreases paths@.len() - i,
    {
        let id = session_of_transcript(paths[i].as_str(), &base, Ghost(omp_sessions_dir@));
        proof {
            assert(seen.take(i + 1).drop_last() =~= seen.take(i as int));
            assert(seen.take(i + 1).last() == text::opt_text(id));
        }
        if let Some(id) = id {
            if let Some(known) = &found {
                if !text::same(known.as_str(), id.as_str()) {
                    proof {
                        conflict_stays(seen, i + 1);
                    }
                    return None;
                }
            }
            found = Some(id);
        }
        i += 1;
    }
    proof {
        assert(seen.take(i as int) =~= seen);
    }
    found
}

/// Once two different ids were seen, no further sighting settles the matter.
proof fn conflict_stays(seen: Seq<Option<Seq<char>>>, i: int)
    requires
        0 <= i <= seen.len(),
        sightings(seen.take(i)) is Conflict,
    ensures
        sightings(seen) is Conflict,
    decreases seen.len(),
{
    if i == seen.len() {
        assert(seen.take(i) =~= seen);
    } else {
        assert(seen.drop_last().take(i) =~= seen.take(i));
        conflict_stays(seen.drop_last(), i);
    }
}

/// What one process showed: its environment block, its open transcripts and its
/// children.
pub struct ProcessFacts {
    pub environ: Option<Seq<u8>>,
    pub paths: Seq<Seq<char>>,
    pub children: Seq<u32>,
}

/// The session id of one process: its environment outranks its open files.
pub open spec fn process_session(facts: ProcessFacts, dir: Seq<char>) -> Option<Seq<char>> {
    let stamped = match facts.environ {
        Some(raw) => session_in_environ(raw),
        None => None,
    };
    if stamped is Some {
        stamped
    } else {
        transcript_sightings(facts.paths, dir).id()
    }
}

/// A walk of a process tree, breadth first.
#[verifier::ext_equal]
pub struct Walk {
    /// Processes to examine, each with its depth below the pane's own.
    pub pending: Seq<(u32, u32)>,
    /// Processes that were queued at some time.
    pub seen: Set<u32>,
    /// How many processes were examined.
    pub examined: nat,
    /// What their session ids come to.
    pub found: Sighting,
}

impl Walk {
    /// The walk at its start.
    pub open spec fn start(pid: u32) -> Walk {
        Walk {
            pending: seq![(pid, 0u32)],
            seen: Set::empty().insert(pid),
            examined: 0,
            found: Sighting::Nothing,
        }
    }

    /// Whether another process is to be examined.
    pub open spec fn goes_on(self) -> bool {
        self.pending.len() > 0 && self.examined < MAX_PROCESSES && !(self.found is Conflict)
    }

    /// The walk with `children` queued at `depth`, those seen before left out.
    pub open spec fn queue(self, children: Seq<u32>, depth: u32) -> Walk
        decreases children.len(),
    {
        if children.len() == 0 {
            self
        } else {
            let shorter = self.queue(children.drop_last(), depth);
            let child = children.last();
            if shorter.seen.contains(child) {
                shorter
            } else {
                Walk {
                    pending: shorter.pending.push((child, depth)),
                    seen: shorter.seen.insert(child),
                    ..shorter
                }
            }
        }
    }

    /// The walk after its first pending process was examined and showed these
    /// facts. The children of one at the depth bound are not walked.
    pub open spec fn step(self, facts: ProcessFacts, dir: Seq<char>) -> Walk {
        let depth = self.pending[0].1;
        let next = Walk {
            pending: self.pending.skip(1),
            examined: self.examined + 1,
            found: self.found.and(process_session(facts, dir)),
            ..self
        };
        if depth >= MAX_DEPTH {
            next
        } else {
            next.queue(facts.children, (depth + 1) as u32)
        }
    }

    /// The walk after the processes examined in turn showed these facts.
    pub open spec fn run(self, facts: Seq<ProcessFacts>, dir: Seq<char>) -> Walk
        decreases facts.len(),
    {
        if facts.len() == 0 {
            self
        } else {
            self.run(facts.drop_last(), dir).step(facts.last(), dir)
        }
    }

    /// Whether `facts` are what a walk from here sees: it goes on at each of
    /// them, and no longer after the last.
    pub open spec fn sees(self, facts: Seq<ProcessFacts>, dir: Seq<char>) -> bool {
        &&& forall|i: int|
            0 <= i < facts.len() ==> (#[trigger] self.run(facts.take(i), dir)).goes_on()
        &&& !self.run(facts, dir).goes_on()
    }
}

/// The state of a walk of a process tree.
pub struct PaneWalk {
    pending: Vec<(u32, u32)>,
    head: usize,
    seen: HashSet<u32>,
    examined: usize,
    found: Option<String>,
    conflict: bool,
}

impl View for PaneWalk {
    type V = Walk;

    closed spec fn view(&self) -> Walk {
        Walk {
            pending: self.pending@.skip(self.head as int),
            seen: self.seen@,
            examined: self.examined as nat,
            found: if self.conflict {
                Sighting::Conflict
            } else {
                match self.found {
                    Some(id) => Sighting::One(id@),
                    None => Sighting::Nothing,
                }
            },
        }
    }
}

impl PaneWalk {
    /// Whether the state is one that a walk can be in.
    pub closed spec fn well_formed(self) -> bool {
        self.head <= self.pending@.len() && self.examined <= MAX_PROCESSES
    }

    /// Starts a walk at a pane's own process.
    pub fn start(pid: u32) -> (r: PaneWalk)
        ensures
            r.well_formed(),
            r@ == Walk::start(pid),
    {
        broadcast use group_hash_axioms;

        let mut pending: Vec<(u32, u32)> = Vec::new();
        pending.push((pid, 0));
        let mut seen: HashSet<u32> = HashSet::new();
        seen.insert(pid);
        let r = PaneWalk { pending, head: 0, seen, examined: 0, found: None, conflict: false };
        proof {
            assert(r@.pending =~= Walk::start(pid).pending);
            assert(r@.seen =~= Walk::start(pid).seen);
        }
        r
    }

    /// The process to examine next and its depth; `None` where the walk is over.
    pub fn next(&self) -> (r: Option<(u32, u32)>)
        requires
            self.well_formed(),
        ensures
            r is Some <==> self@.goes_on(),
            r matches Some(process) ==> process == self@.pending[0],
    {
        if self.head >= self.pending.len() || self.examined >= MAX_PROCESSES || self.conflict {
            None
        } else {
            Some(self.pending[self.head])
        }
    }

    /// Takes note of the session id that the process examined showed.
    fn note(&mut self, candidate: Option<String>)
        requires
            old(self).well_formed(),
            old(self)@.goes_on(),
        ensures
            final(self).well_formed(),
            final(self)@ == (Walk {
                pending: old(self)@.pending.skip(1),
                examined: old(self)@.examined + 1,
                found: old(self)@.found.and(text::opt_text(candidate)),
                ..old(self)@
            }),
    {
        let ghost before = self@;
        let length: usize = self.pending.len();
        assert(self.head < length);
        self.head = self.head + 1;
        self.examined = self.examined + 1;
        if let Some(id) = candidate {
            let opposed: bool = match &self.found {
                Some(known) => !text::same(known.as_str(), id.as_str()),
                None => false,
            };
            if opposed {
                self.conflict = true;
            } else {
                self.found = Some(id);
            }
        }
        proof {
            assert(self@.pending =~= before.pending.skip(1));
        }
    }

    /// Queues the children of a process, those seen before left out.
    fn queue(&mut self, children: &Vec<u32>, depth: u32)
        requires
            old(self).well_formed(),
        ensures
            final(self).well_formed(),
            final(self)@ == old(self)@.queue(children@, depth),
    {
        broadcast use group_hash_axioms;

        let ghost before = self@;
        let mut i: usize = 0;
        proof {
            assert(children@.take(0) =~= Seq::empty());
        }
        while i < children.len()
            invariant
                i <= children@.len(),
                self.well_formed(),
                self@ == before.queue(children@.take(i as int), depth),
            decreases children@.len() - i,
        {
            let ghost here = self@;
            proof {
                assert(children@.take(i + 1).drop_last() =~= children@.take(i as int));
            }
            let child: u32 = children[i];
            if self.seen.insert(child) {
                self.pending.push((child, depth));
                proof {
                    assert(self@.pending =~= here.pending.push((child, depth)));
                }
            } else {
                proof {
                    assert(self.seen@ =~= here.seen);
                }
            }
            i += 1;
        }
        proof {
            assert(children@.take(i as int) =~= children@);
        }
    }

    /// The session id found, where the whole tree showed only one.
    pub fn outcome(self) -> (r: Option<String>)
        requires
            self.well_formed(),
        ensures
            text::opt_text(r) == self@.found.id(),
    {
        if self.conflict {
            None
        } else {
            self.found
        }
    }
}

/// The process that a walk from `start` examines after those that showed the
/// first `i` facts, and its depth.
pub open spec fn examined(
    start: Walk,
    facts: Seq<ProcessFacts>,
    dir: Seq<char>,
    i: int,
) -> (u32, u32) {
    start.run(facts.take(i), dir).pending[0]
}

/// The bytes of an optional block.
pub open spec fn opt_bytes(raw: Option<Vec<u8>>) -> Option<Seq<u8>> {
    match raw {
        Some(raw) => Some(raw@),
        None => None,
    }
}

/// Whether `facts` are what a source answered of a process at this depth. It is asked
/// for the environment block, for the open files only where that gives no session,
/// and for the children only above the depth bound.
pub open spec fn are_answers<S: ProcessSource>(
    source: &S,
    process: (u32, u32),
    facts: ProcessFacts,
) -> bool {
    &&& exists|raw: Option<Vec<u8>>| #[trigger]
        call_ensures(S::environ, (source, process.0), raw) && facts.environ == opt_bytes(raw)
    &&& if facts.environ matches Some(raw) && session_in_environ(raw) is Some {
        facts.paths.len() == 0
    } else {
        exists|paths: Vec<String>| #[trigger]
            call_ensures(S::open_file_paths, (source, process.0), paths) && facts.paths
                == text::texts(paths@)
    }
    &&& if process.1 >= MAX_DEPTH {
        facts.children.len() == 0
    } else {
        exists|children: Vec<u32>| #[trigger]
            call_ensures(S::children, (source, process.0), children) && facts.children
                == children@
    }
}

/// Whether a walk from `pid` saw `facts`, each of them what the source answered of the
/// process that it came to.
pub open spec fn walked<S: ProcessSource>(
    source: &S,
    pid: u32,
    dir: Seq<char>,
    facts: Seq<ProcessFacts>,
) -> bool {
    &&& Walk::start(pid).sees(facts, dir)
    &&& forall|i: int|
        0 <= i < facts.len() ==> are_answers(
            source,
            #[trigger] examined(Walk::start(pid), facts, dir, i),
            facts[i],
        )
}

/// Whether `id` is what a walk from `pid` comes to over what the source answered.
pub open spec fn walk_finds<S: ProcessSource>(
    source: &S,
    pid: u32,
    dir: Seq<char>,
    id: Option<Seq<char>>,
) -> bool {
    exists|facts: Seq<ProcessFacts>| #[trigger]
        walked(source, pid, dir, facts) && id == Walk::start(pid).run(facts, dir).found.id()
}

/// Walks a pane's process tree breadth-first for the session running in it.
///
/// The whole bounded tree is visited: two different identities under one pane are
/// refused as ambiguous rather than resolved by visit order. Whatever the source
/// answers, the result is what a walk that saw those answers comes to.
pub fn resolve_pane_session<S: ProcessSource>(
    source: &S,
    pane_process_id: u32,
    omp_sessions_dir: &str,
) -> (r: Option<String>)
    ensures
        walk_finds(source, pane_process_id, omp_sessions_dir@, text::opt_text(r)),
{
    let ghost start = Walk::start(pane_process_id);
    let ghost dir = omp_sessions_dir@;
    let ghost mut facts: Seq<ProcessFacts> = Seq::empty();
    let mut walk = PaneWalk::start(pane_process_id);
    loop
        invariant
            walk.well_formed(),
            start == Walk::start(pane_process_id),
            dir == omp_sessions_dir@,
            walk@ == start.run(facts, dir),
            walk@.examined == facts.len(),
            forall|i: int|
                0 <= i < facts.len() ==> (#[trigger] start.run(facts.take(i), dir)).goes_on(),
            forall|i: int|
                0 <= i < facts.len() ==> are_answers(
                    source,
                    #[trigger] examined(start, facts, dir, i),
                    facts[i],
                ),
        decreases MAX_PROCESSES - facts.len(),
    {
        let (pid, depth): (u32, u32) = match walk.next() {
            Some(process) => process,
            None => {
                proof {
                    assert(start.sees(facts, dir));
                    assert(walked(source, pane_process_id, dir, facts));
                }
                return walk.outcome();
            },
        };
        let environ = source.environ(pid);
        let stamped: Option<String> = match &environ {
            Some(raw) => session_id_in_environ(raw.as_slice()),
            None => None,
        };
        let ghost shown_environ: Option<Seq<u8>> = match environ {
            Some(raw) => Some(raw@),
            None => None,
        };
        let ghost mut shown_paths: Seq<Seq<char>> = Seq::empty();
        let candidate: Option<String> = match stamped {
            Some(id) => Some(id),
            None => {
                let paths = source.open_file_paths(pid);
                proof {
                    shown_paths = text::texts(paths@);
                    assert(call_ensures(S::open_file_paths, (source, pid), paths));
                }
                omp_session_in_open_files(&paths, omp_sessions_dir)
            },
        };
        let ghost before = walk@;
        walk.note(candidate);
        let ghost mut shown_children: Seq<u32> = Seq::empty();
        if depth < MAX_DEPTH {
            let children = source.children(pid);
            proof {
                shown_children = children@;
                assert(call_ensures(S::children, (source, pid), children));
            }
            walk.queue(&children, depth + 1);
        }
        proof {
            let shown = ProcessFacts {
                environ: shown_environ,
                paths: shown_paths,
                children: shown_children,
            };
            let longer = facts.push(shown);
            assert(longer.drop_last() =~= facts);
            assert(call_ensures(S::environ, (source, pid), environ));
            assert(shown.environ == opt_bytes(environ));
            assert(are_answers(source, (pid, depth), shown));
            assert forall|i: int| 0 <= i < longer.len() implies are_answers(
                source,
                #[trigger] examined(start, longer, dir, i),
                longer[i],
            ) by {
                if i < facts.len() {
                    assert(longer.take(i) =~= facts.take(i));
                    assert(examined(start, longer, dir, i) == examined(start, facts, dir, i));
                } else {
                    assert(longer.take(i) =~= facts);
                }
            }
            assert(walk@ == before.step(shown, dir));
            assert forall|i: int| 0 <= i < longer.len() implies (#[trigger] start.run(
                longer.take(i),
                dir,
            )).goes_on() by {
                if i < facts.len() {
                    assert(longer.take(i) =~= facts.take(i));
                } else {
                    assert(longer.take(i) =~= facts);
                }
            }
            facts = longer;
            queue_keeps(before, shown, dir);
        }
    }
}

/// Queueing children changes neither the count of processes examined nor what
/// was found.
proof fn queue_keeps(walk: Walk, facts: ProcessFacts, dir: Seq<char>)
    requires
        walk.goes_on(),
    ensures
        walk.step(facts, dir).examined == walk.examined + 1,
{
    let next = Walk {
        pending: walk.pending.skip(1),
        examined: walk.examined + 1,
        found: walk.found.and(process_session(facts, dir)),
        ..walk
    };
    queued_alone(next, facts.children, (walk.pending[0].1 + 1) as u32);
}

proof fn queued_alone(walk: Walk, children: Seq<u32>, depth: u32)
    ensures
        walk.queue(children, depth).examined == walk.examined,
        walk.queue(children, depth).found == walk.found,
    decreases children.len(),
{
    if children.len() > 0 {
        queued_alone(walk, children.drop_last(), depth);
    }
}

/// What a walk keeps: no process is queued twice, none that was examined is
/// queued, and none lies below the depth bound.
spec fn keeps_apart(walk: Walk, done: Seq<u32>) -> bool {
    &&& forall|i: int|
        0 <= i < walk.pending.len() ==> walk.seen.contains((#[trigger] walk.pending[i]).0)
            && walk.pending[i].1 <= MAX_DEPTH
    &&& forall|i: int, j: int|
        0 <= i < j < walk.pending.len() ==> (#[trigger] walk.pending[i]).0 != (
        #[trigger] walk.pending[j]).0
    &&& forall|i: int| 0 <= i < done.len() ==> walk.seen.contains(#[trigger] done[i])
    &&& forall|i: int, j: int|
        0 <= i < j < done.len() ==> #[trigger] done[i] != #[trigger] done[j]
    &&& forall|i: int, j: int|
        0 <= i < done.len() && 0 <= j < walk.pending.len() ==> #[trigger] done[i] != (
        #[trigger] walk.pending[j]).0
}

proof fn queue_keeps_apart(walk: Walk, done: Seq<u32>, children: Seq<u32>, depth: u32)
    requires
        keeps_apart(walk, done),
        depth <= MAX_DEPTH,
    ensures
        keeps_apart(walk.queue(children, depth), done),
    decreases children.len(),
{
    if children.len() > 0 {
        queue_keeps_apart(walk, done, children.drop_last(), depth);
    }
}

proof fn step_keeps_apart(walk: Walk, done: Seq<u32>, facts: ProcessFacts, dir: Seq<char>)
    requires
        keeps_apart(walk, done),
        walk.goes_on(),
    ensures
        keeps_apart(walk.step(facts, dir), done.push(walk.pending[0].0)),
{
    let depth = walk.pending[0].1;
    let next = Walk {
        pending: walk.pending.skip(1),
        examined: walk.examined + 1,
        found: walk.found.and(process_session(facts, dir)),
        ..walk
    };
    let longer = done.push(walk.pending[0].0);
    assert forall|i: int| 0 <= i < next.pending.len() implies #[trigger] next.pending[i]
        == walk.pending[i + 1] by {}
    assert(keeps_apart(next, longer));
    if depth < MAX_DEPTH {
        queue_keeps_apart(next, longer, facts.children, (depth + 1) as u32);
    }
}

proof fn run_keeps_apart(pid: u32, facts: Seq<ProcessFacts>, dir: Seq<char>)
    requires
        forall|i: int|
            0 <= i < facts.len() ==> (#[trigger] Walk::start(pid).run(facts.take(i), dir)).goes_on(),
    ensures
        keeps_apart(
            Walk::start(pid).run(facts, dir),
            Seq::new(facts.len(), |i: int| examined(Walk::start(pid), facts, dir, i).0),
        ),
        Walk::start(pid).run(facts, dir).examined == facts.len(),
    decreases facts.len(),
{
    let start = Walk::start(pid);
    let done = Seq::new(facts.len(), |i: int| examined(start, facts, dir, i).0);
    if facts.len() == 0 {
        assert(keeps_apart(start, done));
    } else {
        let shorter = facts.drop_last();
        assert forall|i: int| 0 <= i < shorter.len() implies (#[trigger] start.run(
            shorter.take(i),
            dir,
        )).goes_on() by {
            assert(shorter.take(i) =~= facts.take(i));
        }
        run_keeps_apart(pid, shorter, dir);
        let earlier = Seq::new(shorter.len(), |i: int| examined(start, shorter, dir, i).0);
        assert(facts.take(shorter.len() as int) =~= shorter);
        assert(start.run(facts.take(shorter.len() as int), dir).goes_on());
        step_keeps_apart(start.run(shorter, dir), earlier, facts.last(), dir);
        assert forall|i: int| 0 <= i < shorter.len() implies #[trigger] earlier[i] == done[i] by {
            assert(shorter.take(i) =~= facts.take(i));
        }
        assert(earlier.push(start.run(shorter, dir).pending[0].0) =~= done);
        queue_keeps(start.run(shorter, dir), facts.last(), dir);
    }
}

/// A walk is bounded, whatever the process tree reports, a cycle included: it
/// examines no more than the allowed number of processes, none of them twice, and
/// none below the depth bound.
pub proof fn walks_are_bounded(pid: u32, facts: Seq<ProcessFacts>, dir: Seq<char>)
    requires
        Walk::start(pid).sees(facts, dir),
    ensures
        facts.len() <= MAX_PROCESSES,
        forall|i: int, j: int|
            0 <= i < j < facts.len() ==> (#[trigger] examined(Walk::start(pid), facts, dir, i)).0
                != (#[trigger] examined(Walk::start(pid), facts, dir, j)).0,
        forall|i: int|
            0 <= i < facts.len() ==> (#[trigger] examined(Walk::start(pid), facts, dir, i)).1
                <= MAX_DEPTH,
{
    let start = Walk::start(pid);
    run_keeps_apart(pid, facts, dir);
    let done = Seq::new(facts.len(), |i: int| examined(start, facts, dir, i).0);
    assert forall|i: int, j: int| 0 <= i < j < facts.len() implies (#[trigger] examined(
        start,
        facts,
        dir,
        i,
    )).0 != (#[trigger] examined(start, facts, dir, j)).0 by {
        assert(done[i] != done[j]);
    }
    assert forall|i: int| 0 <= i < facts.len() implies (#[trigger] examined(
        start,
        facts,
        dir,
        i,
    )).1 <= MAX_DEPTH by {
        let shorter = facts.take(i);
        assert forall|k: int| 0 <= k < shorter.len() implies (#[trigger] start.run(
            shorter.take(k),
            dir,
        )).goes_on() by {
            assert(shorter.take(k) =~= facts.take(k));
        }
        run_keeps_apart(pid, shorter, dir);
    }
    if facts.len() > 0 {
        let shorter = facts.drop_last();
        assert(facts.take(shorter.len() as int) =~= shorter);
        assert forall|k: int| 0 <= k < shorter.len() implies (#[trigger] start.run(
            shorter.take(k),
            dir,
        )).goes_on() by {
            assert(shorter.take(k) =~= facts.take(k));
        }
        run_keeps_apart(pid, shorter, dir);
        assert(start.run(facts.take(shorter.len() as int), dir).goes_on());
    }
}

/// The session ids that the processes of a walk showed, in the order examined.
pub open spec fn shown_sessions(facts: Seq<ProcessFacts>, dir: Seq<char>) -> Seq<
    Option<Seq<char>>,
> {
    facts.map_values(|f: ProcessFacts| process_session(f, dir))
}

/// A walk comes to what its processes showed: an id that one of them showed and no
/// other opposed.
pub proof fn walks_find_what_was_shown(pid: u32, facts: Seq<ProcessFacts>, dir: Seq<char>)
    ensures
        Walk::start(pid).run(facts, dir).found == sightings(shown_sessions(facts, dir)),
    decreases facts.len(),
{
    let start = Walk::start(pid);
    if facts.len() > 0 {
        let shorter = facts.drop_last();
        walks_find_what_was_shown(pid, shorter, dir);
        assert(shown_sessions(facts, dir).drop_last() =~= shown_sessions(shorter, dir));
        let walk = start.run(shorter, dir);
        let next = Walk {
            pending: walk.pending.skip(1),
            examined: walk.examined + 1,
            found: walk.found.and(process_session(facts.last(), dir)),
            ..walk
        };
        queued_alone(next, facts.last().children, (walk.pending[0].1 + 1) as u32);
    } else {
        assert(shown_sessions(facts, dir) =~= Seq::empty());
    }
}

/// The value of the first `flags:` line.
pub open spec fn flags_value(lines: Seq<Seq<char>>) -> Option<Seq<char>>
    decreases lines.len(),
{
    if lines.len() == 0 {
        None
    } else if text::stands_at(lines[0], "flags:"@, 0) {
        Some(lines[0].skip(6))
    } else {
        flags_value(lines.skip(1))
    }
}

/// Whether a block of descriptor facts says that the descriptor is open for
/// writing: its first `flags:` line gives octal open flags whose two lowest bits,
/// the access mode, are not zero.
pub open spec fn says_writable(fdinfo: Seq<char>) -> bool {
    match flags_value(text::lines(fdinfo)) {
        Some(value) => match text::unsigned_of(text::trimmed(value), 8, u32::MAX as nat) {
            Some(flags) => flags % 4 != 0,
            None => false,
        },
        None => false,
    }
}

/// Whether an `fdinfo` block says that its descriptor is open for writing.
/// Anything unreadable is not writable.
pub fn fdinfo_is_writable(fdinfo: &str) -> (r: bool)
    ensures
        r == says_writable(fdinfo@),
{
    let lines = text::lines_of(fdinfo);
    let prefix = text::chars_of("flags:");
    let mut i: usize = 0;
    proof {
        reveal_strlit("flags:");
        assert(text::texts(lines@).skip(0) =~= text::texts(lines@));
    }
    while i < lines.len()
        invariant
            i <= lines@.len(),
            prefix@ == "flags:"@,
            "flags:"@.len() == 6,
            text::texts(lines@) == text::lines(fdinfo@),
            flags_value(text::lines(fdinfo@)) == flags_value(text::texts(lines@).skip(i as int)),
        decreases lines@.len() - i,
    {
        let line = text::chars_of(lines[i].as_str());
        proof {
            assert(text::texts(lines@).skip(i as int)[0] == line@);
            assert(text::texts(lines@).skip(i as int).skip(1) =~= text::texts(lines@).skip(i + 1));
        }
        if text::standing_at(&line, &prefix, 0) {
            let (start, end): (usize, usize) = text::trim_bounds(&line, 6, line.len());
            proof {
                assert(line@.subrange(6, line@.len() as int) =~= line@.skip(6));
            }
            return match text::parse_unsigned(&line, start, end, 8, u32::MAX as u64) {
                Some(flags) => flags % 4 != 0,
                None => false,
            };
        }
        i += 1;
    }
    false
}

/// The numbers among the words of a list of child processes.
pub open spec fn listed_numbers(words: Seq<Seq<char>>) -> Seq<u32>
    decreases words.len(),
{
    if words.len() == 0 {
        Seq::empty()
    } else {
        let rest = listed_numbers(words.drop_last());
        match text::unsigned_of(words.last(), 10, u32::MAX as nat) {
            Some(pid) => rest.push(pid as u32),
            None => rest,
        }
    }
}

/// Reads the list of child processes that the kernel keeps for a thread.
pub fn listed_children(listed: &str) -> (r: Vec<u32>)
    ensures
        r@ == listed_numbers(text::words(listed@, true)),
{
    let words = text::words_of(listed, true);
    let mut out: Vec<u32> = Vec::new();
    let mut i: usize = 0;
    while i < words.len()
        invariant
            i <= words@.len(),
            out@ == listed_numbers(text::texts(words@).take(i as int)),
        decreases words@.len() - i,
    {
        let word = text::chars_of(words[i].as_str());
        proof {
            assert(text::texts(words@).take(i + 1).drop_last() =~= text::texts(words@).take(
                i as int,
            ));
            assert(word@.subrange(0, word@.len() as int) =~= word@);
        }
        if let Some(pid) = text::parse_unsigned(&word, 0, word.len(), 10, u32::MAX as u64) {
            out.push(pid as u32);
        }
        i += 1;
    }
    proof {
        assert(text::texts(words@).take(i as int) =~= text::texts(words@));
    }
    out
}

/// The process id of a pane: the one that the hook handed over where it is a
/// number, and otherwise the one that tmux gave.
pub open spec fn pane_pid(handed: Option<Seq<char>>, asked: Option<Seq<char>>) -> Option<nat> {
    let first = match handed {
        Some(raw) => text::unsigned_of(text::trimmed(raw), 10, u32::MAX as nat),
        None => None,
    };
    if first is Some {
        first
    } else {
        match asked {
            Some(raw) => text::unsigned_of(text::trimmed(raw), 10, u32::MAX as nat),
            None => None,
        }
    }
}

/// Reads a pane's process id, leniently: surrounding white space is allowed, and
/// anything that is no number gives `None`, so that the caller asks elsewhere.
pub fn parse_pane_pid(raw: Option<&str>) -> (r: Option<u32>)
    ensures
        match pane_pid(text::opt_str(raw), None) {
            Some(pid) => r == Some(pid as u32) && pid <= u32::MAX,
            None => r is None,
        },
{
    match raw {
        Some(s) => text::parse_trimmed_u32(s),
        None => None,
    }
}

/// The agent session running in a pane, or `None`.
///
/// `pane_process_id` is the text that tmux substituted, `tmux_answer` what tmux
/// says where that text is no process id. `None` is a first-class answer: a plain
/// shell pane has no session.
pub fn session_for_pane<S: ProcessSource>(
    source: &S,
    pane_process_id: Option<&str>,
    tmux_answer: Option<&str>,
    omp_sessions_dir: &str,
) -> (r: Option<String>)
    ensures
        match pane_pid(text::opt_str(pane_process_id), text::opt_str(tmux_answer)) {
            Some(pid) => walk_finds(source, pid as u32, omp_sessions_dir@, text::opt_text(r)),
            None => r is None,
        },
{
    let pid: Option<u32> = match parse_pane_pid(pane_process_id) {
        Some(pid) => Some(pid),
        None => parse_pane_pid(tmux_answer),
    };
    match pid {
        Some(pid) => resolve_pane_session(source, pid, omp_sessions_dir),
        None => None,
    }
}

/// An entry of an environment gives a session exactly where its name, which holds no
/// `=`, is that of a session variable and its value is a text that is not empty. The
/// session is the value.
pub proof fn environments_give_the_value(name: Seq<u8>, value: Seq<u8>)
    requires
        forall|i: int| 0 <= i < name.len() ==> name[i] != 0x3du8,
    ensures
        entry_session(name + seq![0x3du8] + value) is Some <==> is_session_name(name) && value.len()
            > 0 && vstd::utf8::valid_utf8(value),
        entry_session(name + seq![0x3du8] + value) matches Some(id) ==> vstd::utf8::encode_utf8(id)
            == value,
        entry_session(name) is None,
{
    let entry = name + seq![0x3du8] + value;
    let k = text::seek(entry, 0x3du8, 0);
    text::seek_is_first(entry, 0x3du8, 0);
    text::seek_is_first(name, 0x3du8, 0);
    assert(entry[name.len() as int] == 0x3du8);
    assert(k == name.len()) by {
        if k < name.len() {
            assert(entry[k] == name[k]);
        }
    }
    assert(entry.take(k) =~= name);
    assert(entry.skip(k + 1) =~= value);
    if vstd::utf8::valid_utf8(value) {
        vstd::utf8::decode_utf8_encode_utf8(value);
    }
}

/// The session of an environment is that of the first entry that gives one, and there is
/// none exactly where no entry does. `k` is where that entry stands.
pub proof fn the_first_entry_counts(entries: Seq<Seq<u8>>) -> (k: int)
    ensures
        first_session(entries) is None <==> (forall|i: int|
            0 <= i < entries.len() ==> entry_session(#[trigger] entries[i]) is None),
        first_session(entries) is Some ==> 0 <= k < entries.len() && entry_session(entries[k])
            == first_session(entries) && (forall|i: int|
            0 <= i < k ==> entry_session(#[trigger] entries[i]) is None),
    decreases entries.len(),
{
    if entries.len() == 0 {
        0
    } else if entry_session(entries[0]) is Some {
        0
    } else {
        let rest = entries.skip(1);
        let k = the_first_entry_counts(rest);
        assert forall|i: int| 0 < i < entries.len() implies #[trigger] entries[i] == rest[i
            - 1] by {}
        if first_session(rest) is Some {
            assert(entry_session(entries[k + 1]) is Some);
        }
        k + 1
    }
}

proof fn names_follow(a: Seq<Seq<char>>, b: Seq<Seq<char>>)
    ensures
        naming_parts(a + b) == naming_parts(a) + naming_parts(b),
    decreases b.len(),
{
    if b.len() > 0 {
        assert((a + b).drop_last() =~= a + b.drop_last());
        names_follow(a, b.drop_last());
        assert(naming_parts(a + b) =~= naming_parts(a) + naming_parts(b));
    } else {
        assert(a + b =~= a);
        assert(naming_parts(b) =~= Seq::empty());
        assert(naming_parts(a) + naming_parts(b) =~= naming_parts(a));
    }
}

/// Whether a text names one file or directory.
pub open spec fn is_file_name(s: Seq<char>) -> bool {
    &&& s.len() > 0
    &&& s != seq!['.']
    &&& forall|i: int| 0 <= i < s.len() ==> s[i] != '/'
}

/// What lies below a directory has the components of the directory, and then its own
/// name.
pub proof fn files_lie_below_their_directory(dir: Seq<char>, name: Seq<char>)
    requires
        dir.len() > 0,
        is_file_name(name),
    ensures
        components(dir + seq!['/'] + name) == components(dir).push(name),
{
    let path = dir + seq!['/'] + name;
    text::texts_fall_into_pieces(dir, name, '/');
    text::texts_fall_into_pieces(name, name, '/');
    let parts = text::pieces(dir, '/');
    names_follow(parts, seq![name]);
    assert(seq![name].drop_last() =~= Seq::empty());
    assert(naming_parts(Seq::empty()) =~= Seq::empty());
    assert(naming_parts(seq![name]) =~= seq![name]);
    assert(path[0] == dir[0]);
    assert(text::pieces(path, '/')[0] == parts[0]);
    assert(components(path) =~= components(dir).push(name));
}

/// The transcript of a session gives the session: its file lies two levels below the
/// sessions directory, and its name ends with the session's id behind a time.
pub proof fn transcripts_give_their_session(
    dir: Seq<char>,
    slug: Seq<char>,
    stamp: Seq<char>,
    id: Seq<char>,
)
    requires
        dir.len() > 0,
        is_file_name(slug),
        is_file_name(stamp + seq!['_'] + id + ".jsonl"@),
        vstd::utf8::encode_utf8(id).len() == 36,
        text::count(id, '-') == 4,
        forall|i: int| 0 <= i < id.len() ==> id[i] != '_',
    ensures
        transcript_name_session(stamp + seq!['_'] + id + ".jsonl"@) == Some(id),
        transcript_session(
            dir + seq!['/'] + slug + seq!['/'] + (stamp + seq!['_'] + id + ".jsonl"@),
            dir,
        ) == Some(id),
        transcript_session(dir + seq!['/'] + (stamp + seq!['_'] + id + ".jsonl"@), dir) is None,
{
    reveal_strlit(".jsonl");
    let name = stamp + seq!['_'] + id + ".jsonl"@;
    let stem = stamp + seq!['_'] + id;
    assert(name.take(name.len() - 6) =~= stem);
    assert(name.skip(name.len() - 6) =~= ".jsonl"@);
    last_underscore(stamp, id, stem.len() as int);
    assert(stem.skip(stamp.len() as int + 1) =~= id);
    files_lie_below_their_directory(dir, slug);
    let below = dir + seq!['/'] + slug;
    files_lie_below_their_directory(below, name);
    files_lie_below_their_directory(dir, name);
    let all = components(below + seq!['/'] + name);
    assert(all == components(dir).push(slug).push(name));
    assert(all.last() == name);
    assert(components(dir).is_prefix_of(all)) by {
        assert(all.subrange(0, components(dir).len() as int) =~= components(dir));
    }
}

proof fn last_underscore(stamp: Seq<char>, id: Seq<char>, to: int)
    requires
        stamp.len() < to <= stamp.len() + 1 + id.len(),
        forall|i: int| 0 <= i < id.len() ==> id[i] != '_',
    ensures
        text::seek_back(stamp + seq!['_'] + id, '_', to) == stamp.len(),
    decreases to,
{
    let whole = stamp + seq!['_'] + id;
    if to == stamp.len() + 1 {
        assert(whole[to - 1] == '_');
    } else {
        assert(whole[to - 1] == id[to - 1 - stamp.len() - 1]);
        last_underscore(stamp, id, to - 1);
    }
}

/// What the environment of a process says counts before its open files, which count only
/// where it says nothing.
pub proof fn environments_count_before_files(facts: ProcessFacts, dir: Seq<char>)
    ensures
        facts.environ matches Some(raw) ==> session_in_environ(raw) is Some ==> process_session(
            facts,
            dir,
        ) == session_in_environ(raw),
        facts.environ is None || session_in_environ(facts.environ->0) is None ==> process_session(
            facts,
            dir,
        ) == transcript_sightings(facts.paths, dir).id(),
{
}

/// Queueing children puts each that was not met behind what waits already, at the depth
/// given, and has met all of them afterwards; what waited stays where it was.
pub proof fn children_wait_behind(walk: Walk, children: Seq<u32>, depth: u32, pid: u32)
    ensures
        ({
            let after = walk.queue(children, depth);
            &&& after.pending.len() >= walk.pending.len()
            &&& after.pending.take(walk.pending.len() as int) == walk.pending
            &&& forall|i: int|
                walk.pending.len() <= i < after.pending.len() ==> (#[trigger] after.pending[i]).1
                    == depth && children.contains(after.pending[i].0) && !walk.seen.contains(
                    after.pending[i].0,
                )
            &&& after.seen.contains(pid) <==> walk.seen.contains(pid) || children.contains(pid)
            &&& children.contains(pid) && !walk.seen.contains(pid) ==> after.pending.contains(
                (pid, depth),
            )
        }),
    decreases children.len(),
{
    let after = walk.queue(children, depth);
    if children.len() == 0 {
        assert(after.pending.take(walk.pending.len() as int) =~= walk.pending);
    } else {
        let earlier = children.drop_last();
        let child = children.last();
        let shorter = walk.queue(earlier, depth);
        children_wait_behind(walk, earlier, depth, pid);
        children_wait_behind(walk, earlier, depth, child);
        assert(children[children.len() - 1] == child);
        assert forall|x: u32| earlier.contains(x) implies #[trigger] children.contains(x) by {
            let i = choose|i: int| 0 <= i < earlier.len() && earlier[i] == x;
            assert(children[i] == x);
        }
        if children.contains(pid) && pid != child {
            let i = choose|i: int| 0 <= i < children.len() && children[i] == pid;
            assert(earlier[i] == pid);
        }
        assert(after.pending.take(walk.pending.len() as int) =~= walk.pending) by {
            assert(after.pending.take(walk.pending.len() as int) =~= shorter.pending.take(
                walk.pending.len() as int,
            ));
        }
        if shorter.pending.contains((pid, depth)) {
            let i = choose|i: int|
                0 <= i < shorter.pending.len() && shorter.pending[i] == (pid, depth);
            assert(after.pending[i] == (pid, depth));
        }
        if !shorter.seen.contains(child) {
            assert(after.pending[shorter.pending.len() as int] == (child, depth));
        }
        assert forall|i: int| walk.pending.len() <= i < after.pending.len() implies (
        #[trigger] after.pending[i]).1 == depth && children.contains(after.pending[i].0)
            && !walk.seen.contains(after.pending[i].0) by {
            if i < shorter.pending.len() {
                assert(after.pending[i] == shorter.pending[i]);
            }
        }
    }
}

/// A walk examines the process that waits first, and its children wait one level below
/// it; those of a process eight levels down are not walked.
pub proof fn walks_go_on_with_the_first(walk: Walk, facts: ProcessFacts, dir: Seq<char>)
    requires
        walk.goes_on(),
    ensures
        walk.pending[0].1 >= 8 ==> walk.step(facts, dir).pending == walk.pending.skip(1),
        walk.pending[0].1 < 8 ==> walk.step(facts, dir).pending.take(walk.pending.len() - 1)
            == walk.pending.skip(1),
        walk.pending[0].1 < 8 ==> (forall|i: int|
            walk.pending.len() - 1 <= i < walk.step(facts, dir).pending.len() ==> (
            #[trigger] walk.step(facts, dir).pending[i]).1 == walk.pending[0].1 + 1
                && facts.children.contains(walk.step(facts, dir).pending[i].0)),
        walk.step(facts, dir).found == walk.found.and(process_session(facts, dir)),
        walk.step(facts, dir).examined == walk.examined + 1,
{
    let depth = walk.pending[0].1;
    let next = Walk {
        pending: walk.pending.skip(1),
        examined: walk.examined + 1,
        found: walk.found.and(process_session(facts, dir)),
        ..walk
    };
    queued_alone(next, facts.children, (depth + 1) as u32);
    children_wait_behind(next, facts.children, (depth + 1) as u32, 0);
}

/// A descriptor is open for writing exactly where the first line of its flags gives an
/// octal number that is not a multiple of four: other lines do not matter.
pub proof fn the_first_flags_count(lines: Seq<Seq<char>>, line: Seq<char>, rest: Seq<Seq<char>>)
    requires
        forall|i: int|
            0 <= i < lines.len() ==> !text::stands_at(#[trigger] lines[i], "flags:"@, 0),
    ensures
        text::stands_at(line, "flags:"@, 0) ==> flags_value(lines + (seq![line] + rest)) == Some(
            line.skip(6),
        ),
        flags_value(lines) is None,
    decreases lines.len(),
{
    let all = lines + (seq![line] + rest);
    if lines.len() > 0 {
        assert(all[0] == lines[0]);
        assert(all.skip(1) =~= lines.skip(1) + (seq![line] + rest));
        assert forall|i: int| 0 <= i < lines.skip(1).len() implies !text::stands_at(
            #[trigger] lines.skip(1)[i],
            "flags:"@,
            0,
        ) by {
            assert(!text::stands_at(lines[i + 1], "flags:"@, 0));
        }
        the_first_flags_count(lines.skip(1), line, rest);
    } else {
        assert(all[0] == line);
    }
}

/// A descriptor whose flags are written in octal digits is writable exactly where the two
/// lowest bits are not both zero, and one without readable flags is not.
pub proof fn access_modes_decide(fdinfo: Seq<char>)
    ensures
        flags_value(text::lines(fdinfo)) is None ==> !says_writable(fdinfo),
        flags_value(text::lines(fdinfo)) matches Some(value) ==> {
            &&& text::unsigned_of(text::trimmed(value), 8, u32::MAX as nat) is None
                ==> !says_writable(fdinfo)
            &&& text::unsigned_of(text::trimmed(value), 8, u32::MAX as nat) matches Some(flags)
                ==> (says_writable(fdinfo) <==> flags % 4 == 1 || flags % 4 == 2 || flags % 4 == 3)
        },
{
}

/// The numbers of a list of children come in their order, and a word that is none is left
/// out.
pub proof fn children_come_as_listed(words: Seq<Seq<char>>, word: Seq<char>)
    ensures
        listed_numbers(Seq::empty()).len() == 0,
        text::unsigned_of(word, 10, u32::MAX as nat) matches Some(pid) ==> listed_numbers(
            words.push(word),
        ) == listed_numbers(words).push(pid as u32),
        text::unsigned_of(word, 10, u32::MAX as nat) is None ==> listed_numbers(words.push(word))
            == listed_numbers(words),
{
    assert(words.push(word).drop_last() =~= words);
}

/// The process id that was handed over counts where it is a number, and what tmux says
/// only where it is not.
pub proof fn handed_ids_count_first(handed: Option<Seq<char>>, asked: Option<Seq<char>>, pid: u32)
    ensures
        handed == Some(text::decimal(pid as nat)) ==> pane_pid(handed, asked) == Some(pid as nat),
        handed is None && asked == Some(text::decimal(pid as nat)) ==> pane_pid(handed, asked)
            == Some(pid as nat),
        pane_pid(handed, None) is None ==> pane_pid(handed, asked) == pane_pid(None, asked),
        pane_pid(handed, None) is Some ==> pane_pid(handed, asked) == pane_pid(handed, None),
        pane_pid(None, None) is None,
{
    let digits = text::decimal(pid as nat);
    text::digits_read_back(pid as nat);
    text::numbers_read_back(pid as nat, u32::MAX as nat);
    assert(text::is_digit(digits[0], 10));
    assert(text::is_digit(digits[digits.len() - 1], 10));
    text::trimmed_texts_stay(digits);
}

} // verus!
