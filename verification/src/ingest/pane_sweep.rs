//! Periodic sweep over the live tmux panes: which session runs in each.
//!
//! The sweep records the same identity that capture reads at focus time; nothing
//! here reads a title or a directory, and nothing here names a stream.
use vstd::prelude::*;
use vstd::string::*;

use crate::ingest::pane_session;
use crate::ingest::pane_session::{resolve_pane_session, ProcessSource};
use crate::order;
use crate::text;

verus! {

/// What one sweep observed.
#[derive(Clone, Copy, Debug, PartialEq, Eq, Structural)]
pub struct PaneSweepOutcome {
    /// Panes enumerated from the tmux servers.
    pub panes: usize,
    /// Panes whose process tree carried an agent session id.
    pub identified: usize,
    /// Bindings newly recorded.
    pub recorded: u64,
}

impl PaneSweepOutcome {
    /// The outcome of a sweep over `panes`, with what was observed and how much of
    /// it was newly recorded.
    pub fn of(panes: &Vec<(String, u32)>, observations: &Vec<(String, String)>, recorded: u64) -> (r:
        PaneSweepOutcome)
        ensures
            r == (PaneSweepOutcome {
                panes: panes@.len() as usize,
                identified: observations@.len() as usize,
                recorded,
            }),
            r.panes == panes@.len(),
            r.identified == observations@.len(),
    {
        PaneSweepOutcome { panes: panes.len(), identified: observations.len(), recorded }
    }
}

/// The panes with a session, each with its session, in the order of the panes.
pub open spec fn paired(panes: Seq<Seq<char>>, sessions: Seq<Option<Seq<char>>>) -> Seq<
    (Seq<char>, Seq<char>),
>
    decreases panes.len(),
{
    if panes.len() == 0 {
        Seq::empty()
    } else {
        let rest = paired(panes.drop_last(), sessions.drop_last());
        match sessions.last() {
            Some(session) => rest.push((panes.last(), session)),
            None => rest,
        }
    }
}

/// The ids of listed panes.
pub open spec fn pane_ids(panes: Seq<(String, u32)>) -> Seq<Seq<char>> {
    panes.map_values(|p: (String, u32)| p.0@)
}

/// The texts of pane and session pairs.
pub open spec fn pair_texts(pairs: Seq<(String, String)>) -> Seq<(Seq<char>, Seq<char>)> {
    pairs.map_values(|p: (String, String)| (p.0@, p.1@))
}

/// Whether `sessions` are what walks of the listed panes come to.
pub open spec fn walked<S: ProcessSource>(
    source: &S,
    panes: Seq<(String, u32)>,
    dir: Seq<char>,
    sessions: Seq<Option<Seq<char>>>,
) -> bool {
    &&& sessions.len() == panes.len()
    &&& forall|i: int|
        0 <= i < panes.len() ==> pane_session::walk_finds(
            source,
            panes[i].1,
            dir,
            #[trigger] sessions[i],
        )
}

/// Resolves the session of every listed pane. A pane whose walk finds nothing is
/// left out: a plain shell has no session.
pub fn resolve_panes<S: ProcessSource>(
    source: &S,
    panes: &Vec<(String, u32)>,
    omp_sessions_dir: &str,
) -> (r: Vec<(String, String)>)
    ensures
        exists|sessions: Seq<Option<Seq<char>>>|
            {
                &&& #[trigger] walked(source, panes@, omp_sessions_dir@, sessions)
                &&& pair_texts(r@) == paired(pane_ids(panes@), sessions)
            },
{
    let mut out: Vec<(String, String)> = Vec::new();
    let ghost mut sessions: Seq<Option<Seq<char>>> = Seq::empty();
    let mut i: usize = 0;
    while i < panes.len()
        invariant
            i <= panes@.len(),
            sessions.len() == i,
            forall|j: int|
                0 <= j < i ==> pane_session::walk_finds(
                    source,
                    panes@[j].1,
                    omp_sessions_dir@,
                    #[trigger] sessions[j],
                ),
            pair_texts(out@) == paired(pane_ids(panes@).take(i as int), sessions),
        decreases panes@.len() - i,
    {
        let session = resolve_pane_session(source, panes[i].1, omp_sessions_dir);
        let ghost before = pair_texts(out@);
        let ghost earlier = sessions;
        proof {
            sessions = earlier.push(text::opt_text(session));
            assert(sessions.drop_last() =~= earlier);
            assert(pane_ids(panes@).take(i + 1).drop_last() =~= pane_ids(panes@).take(i as int));
        }
        if let Some(session) = session {
            out.push((panes[i].0.clone(), session));
            proof {
                assert(pair_texts(out@) =~= before.push((panes@[i as int].0@, session@)));
            }
        }
        i += 1;
    }
    proof {
        assert(pane_ids(panes@).take(i as int) =~= pane_ids(panes@));
        assert(walked(source, panes@, omp_sessions_dir@, sessions));
    }
    out
}

/// The socket of a tmux server that a line of the kernel's list of sockets names:
/// its last word, where that is an absolute path that holds `tmux-`.
pub open spec fn socket_of(line: Seq<char>) -> Option<Seq<char>> {
    let words = text::words(line, false);
    if words.len() > 0 && words.last().len() > 0 && words.last()[0] == '/' && text::contains_text(
        words.last(),
        "tmux-"@,
    ) {
        Some(words.last())
    } else {
        None
    }
}

fn socket_in(line: &str) -> (r: Option<String>)
    ensures
        text::opt_text(r) == socket_of(line@),
{
    let words = text::words_of(line, false);
    let count: usize = words.len();
    if count == 0 {
        proof {
            assert(text::texts(words@).len() == 0);
        }
        return None;
    }
    let last: &String = &words[count - 1];
    proof {
        assert(text::texts(words@).last() == last@);
    }
    if last.as_str().unicode_len() > 0 && last.as_str().get_char(0) == '/' && text::contains(
        last.as_str(),
        "tmux-",
    ) {
        Some(last.clone())
    } else {
        None
    }
}

/// The sockets of tmux servers that lines name.
pub open spec fn sockets_in(lines: Seq<Seq<char>>) -> Set<Seq<char>> {
    Set::new(|s: Seq<char>| exists|i: int| 0 <= i < lines.len() && #[trigger] socket_of(lines[i]) == Some(s))
}

/// Whether texts ascend, so that none occurs twice.
pub open spec fn ascend(texts: Seq<Seq<char>>) -> bool {
    forall|i: int, j: int|
        0 <= i < j < texts.len() ==> order::text_leq(#[trigger] texts[i], #[trigger] texts[j])
            && texts[i] != texts[j]
}

fn insert_ascending(sorted: &mut Vec<String>, item: String)
    requires
        ascend(text::texts(old(sorted)@)),
    ensures
        ascend(text::texts(final(sorted)@)),
        text::texts(final(sorted)@).to_set() == text::texts(old(sorted)@).to_set().insert(item@),
{
    broadcast use vstd::seq_lib::group_seq_properties;

    let ghost before = text::texts(sorted@);
    let ghost x = item@;
    let chars = text::chars_of(item.as_str());
    let mut k: usize = 0;
    while k < sorted.len()
        invariant
            k <= sorted@.len(),
            before == text::texts(sorted@),
            ascend(before),
            chars@ == x,
            item@ == x,
            forall|i: int| 0 <= i < k ==> !order::text_leq(x, #[trigger] before[i]),
        ensures
            k <= sorted@.len(),
            before == text::texts(sorted@),
            k < sorted@.len() ==> order::text_leq(x, before[k as int]),
            forall|i: int| 0 <= i < k ==> !order::text_leq(x, #[trigger] before[i]),
        decreases sorted@.len() - k,
    {
        let other = text::chars_of(sorted[k].as_str());
        proof {
            assert(before[k as int] == sorted@[k as int]@);
        }
        if order::text_at_most(&chars, &other) {
            break;
        }
        k += 1;
    }
    proof {
        assert forall|i: int| 0 <= i < k implies order::text_leq(#[trigger] before[i], x)
            && before[i] != x by {
            order::texts_are_ordered(x, before[i], x);
        }
    }
    if k < sorted.len() && text::same(sorted[k].as_str(), item.as_str()) {
        proof {
            assert(before[k as int] == x);
            assert(before.contains(x));
            assert(before.to_set().insert(x) =~= before.to_set());
        }
        return;
    }
    sorted.insert(k, item);
    proof {
        let after = text::texts(sorted@);
        assert(after =~= before.insert(k as int, x));
        assert forall|i: int, j: int| 0 <= i < j < after.len() implies order::text_leq(
            #[trigger] after[i],
            #[trigger] after[j],
        ) && after[i] != after[j] by {
            let a = if i < k {
                i
            } else {
                i - 1
            };
            let b = if j < k {
                j
            } else {
                j - 1
            };
            if i != k && j != k {
                assert(after[i] == before[a] && after[j] == before[b]);
            } else if j == k {
                assert(after[i] == before[i]);
            } else {
                assert(after[j] == before[b]);
                if b > k {
                    assert(order::text_leq(before[k as int], before[b]));
                    order::texts_are_ordered(x, before[k as int], before[b]);
                    if before[b] == x {
                        order::texts_are_ordered(before[k as int], x, x);
                    }
                } else {
                    assert(before[b] == sorted@[j]@);
                }
            }
        }
        assert forall|s: Seq<char>| after.to_set().contains(s) == #[trigger] before.to_set().insert(
            x,
        ).contains(s) by {
            if after.contains(s) {
                let i = choose|i: int| 0 <= i < after.len() && after[i] == s;
                if i < k {
                    assert(before[i] == s);
                } else if i > k {
                    assert(before[i - 1] == s);
                }
            }
            if before.contains(s) {
                let i = choose|i: int| 0 <= i < before.len() && before[i] == s;
                if i < k {
                    assert(after[i] == s);
                } else {
                    assert(after[i + 1] == s);
                }
            }
            assert(after[k as int] == x);
        }
        assert(after.to_set() =~= before.to_set().insert(x));
    }
}

/// Lists the sockets of the tmux servers that the kernel's list of sockets names, in
/// ascending order and each once.
pub fn tmux_sockets(net_unix: &str) -> (r: Vec<String>)
    ensures
        ascend(text::texts(r@)),
        text::texts(r@).to_set() == sockets_in(text::lines(net_unix@)),
{
    let lines = text::lines_of(net_unix);
    let ghost all = text::texts(lines@);
    let mut out: Vec<String> = Vec::new();
    let mut i: usize = 0;
    proof {
        assert(text::texts(out@).to_set() =~= sockets_in(all.take(0)));
    }
    while i < lines.len()
        invariant
            i <= lines@.len(),
            all == text::texts(lines@),
            ascend(text::texts(out@)),
            text::texts(out@).to_set() == sockets_in(all.take(i as int)),
        decreases lines@.len() - i,
    {
        let ghost before = sockets_in(all.take(i as int));
        let ghost line = all[i as int];
        proof {
            assert(line == lines@[i as int]@);
            assert forall|s: Seq<char>| #[trigger] sockets_in(all.take(i + 1)).contains(s) == (
            before.contains(s) || socket_of(line) == Some(s)) by {
                let longer = all.take(i + 1);
                let shorter = all.take(i as int);
                if sockets_in(longer).contains(s) {
                    let j = choose|j: int|
                        0 <= j < longer.len() && #[trigger] socket_of(longer[j]) == Some(s);
                    if j < i {
                        assert(socket_of(shorter[j]) == Some(s));
                    }
                }
                if before.contains(s) {
                    let j = choose|j: int|
                        0 <= j < shorter.len() && #[trigger] socket_of(shorter[j]) == Some(s);
                    assert(socket_of(longer[j]) == Some(s));
                }
                assert(longer[i as int] == line);
            }
        }
        if let Some(socket) = socket_in(lines[i].as_str()) {
            let ghost named = socket@;
            insert_ascending(&mut out, socket);
            proof {
                assert(before.insert(named) =~= sockets_in(all.take(i + 1)));
            }
        } else {
            proof {
                assert(before =~= sockets_in(all.take(i + 1)));
            }
        }
        i += 1;
    }
    proof {
        assert(all.take(i as int) =~= all);
    }
    out
}

/// The arguments with which tmux is asked: once per socket, and once without any
/// where no socket is known.
pub fn tmux_invocations(sockets: Vec<String>) -> (r: Vec<Vec<String>>)
    ensures
        if sockets@.len() == 0 {
            r@.len() == 1 && r@[0]@.len() == 0
        } else {
            &&& r@.len() == sockets@.len()
            &&& forall|i: int|
                0 <= i < r@.len() ==> text::texts((#[trigger] r@[i])@) == seq![
                    "-S"@,
                    sockets@[i]@,
                ]
        },
{
    let mut out: Vec<Vec<String>> = Vec::new();
    if sockets.len() == 0 {
        out.push(Vec::new());
        return out;
    }
    let ghost all = sockets@;
    for socket in it: sockets
        invariant
            it.seq() == all,
            out@.len() == it.index(),
            forall|i: int|
                0 <= i < out@.len() ==> text::texts((#[trigger] out@[i])@) == seq![
                    "-S"@,
                    all[i]@,
                ],
    {
        let ghost named = socket@;
        let mut arguments: Vec<String> = Vec::new();
        arguments.push("-S".to_owned());
        arguments.push(socket);
        proof {
            assert(text::texts(arguments@) =~= seq!["-S"@, named]);
        }
        out.push(arguments);
    }
    out
}

/// The pane and the process id of a line of tmux's listing.
pub open spec fn pane_of(line: Seq<char>) -> Option<(Seq<char>, u32)> {
    let t = text::trimmed(line);
    let k = text::seek(t, ' ', 0);
    if k < t.len() {
        match text::unsigned_of(t.skip(k + 1), 10, u32::MAX as nat) {
            Some(pid) => Some((t.take(k), pid as u32)),
            None => None,
        }
    } else {
        None
    }
}

/// The panes and process ids of the lines of tmux's listing.
pub open spec fn panes_in(lines: Seq<Seq<char>>) -> Seq<(Seq<char>, u32)>
    decreases lines.len(),
{
    if lines.len() == 0 {
        Seq::empty()
    } else {
        let rest = panes_in(lines.drop_last());
        match pane_of(lines.last()) {
            Some(pane) => rest.push(pane),
            None => rest,
        }
    }
}

/// Panes and process ids, as text and number.
pub open spec fn pane_views(panes: Seq<(String, u32)>) -> Seq<(Seq<char>, u32)> {
    Seq::new(panes.len(), |i: int| (panes[i].0@, panes[i].1))
}

fn pane_in(line: &str) -> (r: Option<(String, u32)>)
    ensures
        match pane_of(line@) {
            Some(pane) => r matches Some(found) && found.0@ == pane.0 && found.1 == pane.1,
            None => r is None,
        },
{
    let trimmed = text::trim(line);
    let chars = text::chars_of(trimmed.as_str());
    let count: usize = chars.len();
    let k: usize = text::find_char(&chars, ' ', 0);
    if k >= count {
        return None;
    }
    let pane = text::string_from(&chars, 0, k);
    proof {
        assert(pane@ =~= trimmed@.take(k as int));
        assert(chars@.subrange(k + 1, count as int) =~= trimmed@.skip(k + 1));
    }
    match text::parse_unsigned(&chars, k + 1, count, 10, u32::MAX as u64) {
        Some(pid) => Some((pane, pid as u32)),
        None => None,
    }
}

/// Reads tmux's listing of panes: one line per pane, its id and its process id. A
/// line that is neither is left out.
pub fn parse_panes(listing: &str) -> (r: Vec<(String, u32)>)
    ensures
        pane_views(r@) == panes_in(text::lines(listing@)),
{
    let lines = text::lines_of(listing);
    let ghost all = text::texts(lines@);
    let mut out: Vec<(String, u32)> = Vec::new();
    let mut i: usize = 0;
    proof {
        assert(pane_views(out@) =~= panes_in(all.take(0)));
    }
    while i < lines.len()
        invariant
            i <= lines@.len(),
            all == text::texts(lines@),
            pane_views(out@) == panes_in(all.take(i as int)),
        decreases lines@.len() - i,
    {
        let ghost before = pane_views(out@);
        proof {
            assert(all.take(i + 1).drop_last() =~= all.take(i as int));
            assert(all.take(i + 1).last() == lines@[i as int]@);
        }
        if let Some(pane) = pane_in(lines[i].as_str()) {
            let ghost view = (pane.0@, pane.1);
            out.push(pane);
            proof {
                assert(pane_views(out@) =~= before.push(view));
            }
        }
        i += 1;
    }
    proof {
        assert(all.take(i as int) =~= all);
    }
    out
}

/// Each pane with a session is given with its own session, in the order of the panes, and
/// one without is left out.
pub proof fn panes_keep_their_sessions(
    panes: Seq<Seq<char>>,
    sessions: Seq<Option<Seq<char>>>,
    pane: Seq<char>,
    session: Option<Seq<char>>,
)
    requires
        panes.len() == sessions.len(),
    ensures
        paired(Seq::empty(), Seq::empty()).len() == 0,
        session matches Some(id) ==> paired(panes.push(pane), sessions.push(session)) == paired(
            panes,
            sessions,
        ).push((pane, id)),
        session is None ==> paired(panes.push(pane), sessions.push(session)) == paired(
            panes,
            sessions,
        ),
{
    assert(panes.push(pane).drop_last() =~= panes);
    assert(sessions.push(session).drop_last() =~= sessions);
}

/// A line that gives a pane and a number behind one space is read back as they are.
pub proof fn listed_panes_read_back(pane: Seq<char>, pid: u32)
    requires
        pane.len() > 0,
        forall|i: int| 0 <= i < pane.len() ==> !text::is_space(#[trigger] pane[i]),
    ensures
        pane_of(pane + seq![' '] + text::decimal(pid as nat)) == Some((pane, pid)),
{
    let digits = text::decimal(pid as nat);
    let line = pane + seq![' '] + digits;
    text::digits_read_back(pid as nat);
    text::numbers_read_back(pid as nat, u32::MAX as nat);
    assert(line[0] == pane[0]);
    assert(!text::is_space(pane[0]));
    assert(line.last() == digits.last());
    assert(text::is_digit(digits[digits.len() - 1], 10));
    text::trimmed_texts_stay(line);
    let k = text::seek(line, ' ', 0);
    text::seek_is_first(line, ' ', 0);
    assert(line[pane.len() as int] == ' ');
    assert(k == pane.len()) by {
        if k < pane.len() {
            assert(line[k] == pane[k]);
            assert(!text::is_space(pane[k]));
        }
    }
    assert(line.take(k) =~= pane);
    assert(line.skip(k + 1) =~= digits);
}

/// The panes come in the order of the lines that give them, and a line that gives none is
/// left out.
pub proof fn panes_come_in_the_order_of_the_lines(lines: Seq<Seq<char>>, line: Seq<char>)
    ensures
        panes_in(Seq::empty()).len() == 0,
        pane_of(line) matches Some(pane) ==> panes_in(lines.push(line)) == panes_in(lines).push(
            pane,
        ),
        pane_of(line) is None ==> panes_in(lines.push(line)) == panes_in(lines),
{
    assert(lines.push(line).drop_last() =~= lines);
}

/// A line names a socket of tmux exactly where its last word is an absolute path that
/// says so, and then that word.
pub proof fn sockets_are_absolute_paths_of_tmux(start: Seq<Seq<char>>, line: Seq<char>, last: Seq<char>)
    requires
        text::words(line, false) == start.push(last),
    ensures
        socket_of(line) is Some <==> last.len() > 0 && last[0] == '/' && text::contains_text(
            last,
            "tmux-"@,
        ),
        socket_of(line) matches Some(socket) ==> socket == last,
{
}

/// What is paired is each listed pane's own id with the session's.
pub proof fn pairs_are_told_in_order(
    panes: Seq<(String, u32)>,
    pairs: Seq<(String, String)>,
    i: int,
)
    ensures
        pane_ids(panes).len() == panes.len(),
        0 <= i < panes.len() ==> pane_ids(panes)[i] == panes[i].0@,
        pair_texts(pairs).len() == pairs.len(),
        0 <= i < pairs.len() ==> pair_texts(pairs)[i] == (pairs[i].0@, pairs[i].1@),
        pane_views(panes).len() == panes.len(),
        0 <= i < panes.len() ==> pane_views(panes)[i] == (panes[i].0@, panes[i].1),
{
}

} // verus!
