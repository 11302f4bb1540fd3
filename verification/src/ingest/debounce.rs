//! Debouncing of pane events: one event per pane and window is recorded.
//!
//! What was recorded last is kept as text, one line `pane:milliseconds` per pane.
use vstd::prelude::*;
use vstd::string::*;

use crate::text;

verus! {

/// Milliseconds within which a pane's next event is skipped.
pub const DEBOUNCE_WINDOW_MS: u64 = 500;

/// Milliseconds for which other panes' entries are kept.
pub const KEPT_MS: u64 = 10_000;

/// What becomes of an event.
#[derive(Debug)]
pub enum Debounce {
    /// It is skipped, and what is kept stays as it is.
    Skip,
    /// It is recorded, and this is kept from now on.
    Record(String),
}

/// The pane and the time of a line; `None` where it is no entry.
pub open spec fn entry_of(line: Seq<char>) -> Option<(Seq<char>, nat)> {
    let k = text::seek_back(line, ':', line.len() as int);
    if k < 0 {
        None
    } else {
        match text::unsigned_of(line.skip(k + 1), 10, u64::MAX as nat) {
            Some(ms) => Some((line.take(k), ms)),
            None => None,
        }
    }
}

/// Whether less than `window` has passed since `then`; nothing has where `then` is
/// still to come.
pub open spec fn is_fresh(now: int, then: int, window: int) -> bool {
    (if now >= then {
        now - then
    } else {
        0
    }) < window
}

/// Whether a line makes an event of the pane at `now` be skipped.
pub open spec fn line_debounces(line: Seq<char>, pane: Seq<char>, now: int) -> bool {
    entry_of(line) matches Some(entry) && entry.0 == pane && is_fresh(
        now,
        entry.1 as int,
        DEBOUNCE_WINDOW_MS as int,
    )
}

/// Whether some line makes an event of the pane at `now` be skipped.
pub open spec fn some_debounces(lines: Seq<Seq<char>>, pane: Seq<char>, now: int) -> bool {
    exists|i: int| 0 <= i < lines.len() && line_debounces(#[trigger] lines[i], pane, now)
}

/// Whether an event of the pane at `now` is skipped.
pub open spec fn is_debounced(content: Seq<char>, pane: Seq<char>, now: int) -> bool {
    some_debounces(text::lines(content), pane, now)
}

/// The line for a pane and a time.
pub open spec fn entry_line(pane: Seq<char>, ms: nat) -> Seq<char> {
    pane + ":"@ + text::decimal(ms)
}

/// Whether a line is kept when an event of `pane` is recorded at `now`.
pub open spec fn is_kept(line: Seq<char>, pane: Seq<char>, now: int) -> bool {
    entry_of(line) matches Some(entry) && entry.0 != pane && is_fresh(
        now,
        entry.1 as int,
        KEPT_MS as int,
    )
}

/// The lines that are kept when an event of `pane` is recorded at `now`.
pub open spec fn kept_lines(lines: Seq<Seq<char>>, pane: Seq<char>, now: int) -> Seq<Seq<char>>
    decreases lines.len(),
{
    if lines.len() == 0 {
        Seq::empty()
    } else {
        let rest = kept_lines(lines.drop_last(), pane, now);
        if is_kept(lines.last(), pane, now) {
            let entry = entry_of(lines.last())->0;
            rest.push(entry_line(entry.0, entry.1))
        } else {
            rest
        }
    }
}

/// The lines after an event of `pane` has been recorded at `now`.
pub open spec fn recorded_lines(content: Seq<char>, pane: Seq<char>, now: nat) -> Seq<Seq<char>> {
    kept_lines(text::lines(content), pane, now as int).push(entry_line(pane, now))
}

/// What is kept after an event of `pane` has been recorded at `now`.
pub open spec fn recorded(content: Seq<char>, pane: Seq<char>, now: nat) -> Seq<char> {
    text::joined(recorded_lines(content, pane, now), seq!['\n'])
}

fn entry_in(line: &str) -> (r: Option<(String, u64)>)
    ensures
        match entry_of(line@) {
            Some(entry) => r matches Some(found) && found.0@ == entry.0 && found.1 == entry.1,
            None => r is None,
        },
{
    let chars = text::chars_of(line);
    let count: usize = chars.len();
    match text::find_last_char(&chars, ':') {
        Some(k) => {
            let ms: Option<u64> = text::parse_unsigned(&chars, k + 1, count, 10, u64::MAX);
            let pane = text::string_from(&chars, 0, k);
            proof {
                assert(chars@.subrange(k + 1, count as int) =~= line@.skip(k + 1));
                assert(pane@ =~= line@.take(k as int));
            }
            match ms {
                Some(ms) => Some((pane, ms)),
                None => None,
            }
        },
        None => None,
    }
}

fn fresh(now: u64, then: u64, window: u64) -> (r: bool)
    ensures
        r == is_fresh(now as int, then as int, window as int),
{
    now.saturating_sub(then) < window
}

fn write_entry(pane: &str, ms: u64) -> (r: String)
    ensures
        r@ == entry_line(pane@, ms as nat),
{
    let mut line = pane.to_owned();
    line.append(":");
    text::push_decimal(&mut line, ms);
    line
}

/// Decides whether an event of a pane is recorded, given what is kept.
pub fn check_debounce(content: &str, pane_id: &str, now_ms: u64) -> (r: Debounce)
    ensures
        if is_debounced(content@, pane_id@, now_ms as int) {
            r is Skip
        } else {
            r matches Debounce::Record(kept) && kept@ == recorded(
                content@,
                pane_id@,
                now_ms as nat,
            )
        },
{
    let lines = text::lines_of(content);
    let ghost all = text::texts(lines@);
    let mut entries: Vec<String> = Vec::new();
    let mut i: usize = 0;
    proof {
        assert(text::texts(entries@) =~= kept_lines(all.take(0), pane_id@, now_ms as int));
    }
    while i < lines.len()
        invariant
            i <= lines@.len(),
            all == text::texts(lines@),
            all == text::lines(content@),
            forall|k: int| 0 <= k < i ==> !line_debounces(#[trigger] all[k], pane_id@, now_ms as int),
            text::texts(entries@) == kept_lines(all.take(i as int), pane_id@, now_ms as int),
        decreases lines@.len() - i,
    {
        proof {
            assert(all.take(i + 1).drop_last() =~= all.take(i as int));
            assert(all[i as int] == lines@[i as int]@);
        }
        let ghost before = text::texts(entries@);
        if let Some((pane, ms)) = entry_in(lines[i].as_str()) {
            if text::same(pane.as_str(), pane_id) {
                if fresh(now_ms, ms, DEBOUNCE_WINDOW_MS) {
                    proof {
                        assert(line_debounces(all[i as int], pane_id@, now_ms as int));
                        assert(some_debounces(all, pane_id@, now_ms as int));
                    }
                    return Debounce::Skip;
                }
            } else if fresh(now_ms, ms, KEPT_MS) {
                let line = write_entry(pane.as_str(), ms);
                let ghost kept = line@;
                entries.push(line);
                proof {
                    assert(text::texts(entries@) =~= before.push(kept));
                }
            }
        }
        i += 1;
    }
    proof {
        assert(all.take(i as int) =~= all);
        reveal_strlit("\n");
        assert("\n"@ =~= seq!['\n']);
    }
    let ghost before = text::texts(entries@);
    let line = write_entry(pane_id, now_ms);
    let ghost last = line@;
    entries.push(line);
    proof {
        assert(text::texts(entries@) =~= before.push(last));
    }
    Debounce::Record(text::join(&entries, "\n"))
}

proof fn last_colon(pane: Seq<char>, digits: Seq<char>, to: int)
    requires
        text::all_digits(digits, 10),
        pane.len() < to <= pane.len() + 1 + digits.len(),
    ensures
        text::seek_back(pane + ":"@ + digits, ':', to) == pane.len(),
    decreases to,
{
    reveal_strlit(":");
    let whole = pane + ":"@ + digits;
    if to == pane.len() + 1 {
        assert(whole[to - 1] == ':');
    } else {
        let i = to - 1 - pane.len() - 1;
        assert(whole[to - 1] == digits[i]);
        assert(text::is_digit(digits[i], 10));
        last_colon(pane, digits, to - 1);
    }
}

/// A line for a pane and a time is read back as they are.
pub proof fn entries_read_back(pane: Seq<char>, ms: nat)
    requires
        ms <= u64::MAX,
    ensures
        entry_of(entry_line(pane, ms)) == Some((pane, ms)),
{
    let digits = text::decimal(ms);
    let line = entry_line(pane, ms);
    text::digits_read_back(ms);
    text::numbers_read_back(ms, u64::MAX as nat);
    reveal_strlit(":");
    last_colon(pane, digits, line.len() as int);
    assert(line.skip(pane.len() as int + 1) =~= digits);
    assert(line.take(pane.len() as int) =~= pane);
}

proof fn entry_lines_are_lines(pane: Seq<char>, ms: nat)
    requires
        !pane.contains('\n'),
    ensures
        text::is_line(entry_line(pane, ms)),
{
    let digits = text::decimal(ms);
    let line = entry_line(pane, ms);
    text::digits_read_back(ms);
    reveal_strlit(":");
    assert forall|i: int| 0 <= i < line.len() implies line[i] != '\n' by {
        if i < pane.len() {
            assert(pane.contains(pane[i]));
        } else if i > pane.len() {
            assert(text::is_digit(digits[i - pane.len() - 1], 10));
        }
    }
    assert(line.last() == digits.last());
    assert(text::is_digit(digits[digits.len() - 1], 10));
}

/// Whether every entry that matters at `later` is kept at `now`: the clock may have
/// stepped back in between by what an entry is kept for beyond the window.
pub open spec fn reaches(now: int, later: int) -> bool {
    now - later <= KEPT_MS - DEBOUNCE_WINDOW_MS
}

proof fn kept_lines_are_entries(
    lines: Seq<Seq<char>>,
    pane: Seq<char>,
    now: int,
    other: Seq<char>,
    later: int,
)
    requires
        forall|i: int| 0 <= i < lines.len() ==> !(#[trigger] lines[i]).contains('\n'),
        other != pane,
    ensures
        forall|i: int|
            0 <= i < kept_lines(lines, pane, now).len() ==> text::is_line(
                #[trigger] kept_lines(lines, pane, now)[i],
            ),
        forall|i: int|
            0 <= i < kept_lines(lines, pane, now).len() ==> !line_debounces(
                #[trigger] kept_lines(lines, pane, now)[i],
                pane,
                later,
            ),
        reaches(now, later) ==> some_debounces(kept_lines(lines, pane, now), other, later)
            == some_debounces(lines, other, later),
    decreases lines.len(),
{
    let kept = kept_lines(lines, pane, now);
    if lines.len() == 0 {
        assert(!some_debounces(kept, other, later));
        assert(!some_debounces(lines, other, later));
    } else {
        let shorter = lines.drop_last();
        let rest = kept_lines(shorter, pane, now);
        let line = lines.last();
        assert forall|i: int| 0 <= i < shorter.len() implies !(
        #[trigger] shorter[i]).contains('\n') by {
            assert(!lines[i].contains('\n'));
        }
        kept_lines_are_entries(shorter, pane, now, other, later);
        assert(!lines[lines.len() - 1].contains('\n'));
        assert(some_debounces(lines, other, later) == (some_debounces(shorter, other, later)
            || line_debounces(line, other, later))) by {
            if some_debounces(shorter, other, later) {
                let i = choose|i: int|
                    0 <= i < shorter.len() && line_debounces(#[trigger] shorter[i], other, later);
                assert(line_debounces(lines[i], other, later));
            }
            if line_debounces(line, other, later) {
                assert(line_debounces(lines[lines.len() - 1], other, later));
            }
            if some_debounces(lines, other, later) && !line_debounces(line, other, later) {
                let i = choose|i: int|
                    0 <= i < lines.len() && line_debounces(#[trigger] lines[i], other, later);
                assert(line_debounces(shorter[i], other, later));
            }
        }
        if is_kept(line, pane, now) {
            let entry = entry_of(line)->0;
            let written = entry_line(entry.0, entry.1);
            assert(kept == rest.push(written));
            assert(!entry.0.contains('\n')) by {
                text::seek_back_lies_before(line, ':', line.len() as int);
                if entry.0.contains('\n') {
                    let j = choose|j: int| 0 <= j < entry.0.len() && entry.0[j] == '\n';
                    assert(line[j] == '\n');
                }
            }
            entry_lines_are_lines(entry.0, entry.1);
            entries_read_back(entry.0, entry.1);
            assert(some_debounces(kept, other, later) == (some_debounces(rest, other, later)
                || line_debounces(written, other, later))) by {
                if some_debounces(rest, other, later) {
                    let i = choose|i: int|
                        0 <= i < rest.len() && line_debounces(#[trigger] rest[i], other, later);
                    assert(line_debounces(kept[i], other, later));
                }
                if line_debounces(written, other, later) {
                    assert(line_debounces(kept[kept.len() - 1], other, later));
                }
                if some_debounces(kept, other, later) && !line_debounces(written, other, later) {
                    let i = choose|i: int|
                        0 <= i < kept.len() && line_debounces(#[trigger] kept[i], other, later);
                    assert(line_debounces(rest[i], other, later));
                }
            }
            assert forall|i: int| 0 <= i < kept.len() implies text::is_line(
                #[trigger] kept[i],
            ) && !line_debounces(kept[i], pane, later) by {
                if i < rest.len() {
                    assert(text::is_line(rest[i]));
                    assert(!line_debounces(rest[i], pane, later));
                }
            }
        } else {
            assert(kept == rest);
        }
    }
}

proof fn recorded_lines_read_back(
    content: Seq<char>,
    pane: Seq<char>,
    now: nat,
    other: Seq<char>,
    later: int,
)
    requires
        !pane.contains('\n'),
        now <= u64::MAX,
        other != pane,
    ensures
        text::lines(recorded(content, pane, now)) == recorded_lines(content, pane, now),
        is_debounced(recorded(content, pane, now), pane, later) == is_fresh(
            later,
            now as int,
            DEBOUNCE_WINDOW_MS as int,
        ),
        reaches(now as int, later) ==> is_debounced(recorded(content, pane, now), other, later)
            == is_debounced(content, other, later),
{
    let lines = text::lines(content);
    let kept = kept_lines(lines, pane, now as int);
    let all = recorded_lines(content, pane, now);
    assert forall|i: int| 0 <= i < lines.len() implies !(#[trigger] lines[i]).contains('\n') by {
        text::lines_hold_no_newline(content, i);
    }
    kept_lines_are_entries(lines, pane, now as int, other, later);
    entry_lines_are_lines(pane, now);
    entries_read_back(pane, now);
    assert forall|i: int| 0 <= i < all.len() implies text::is_line(#[trigger] all[i]) by {
        if i < kept.len() {
            assert(text::is_line(kept[i]));
        }
    }
    text::lines_read_back(all);
    let last = all[all.len() - 1];
    assert(last == entry_line(pane, now));
    if is_fresh(later, now as int, DEBOUNCE_WINDOW_MS as int) {
        assert(line_debounces(last, pane, later));
    }
    if some_debounces(all, pane, later) {
        let i = choose|i: int|
            0 <= i < all.len() && line_debounces(#[trigger] all[i], pane, later);
        if i < kept.len() {
            assert(!line_debounces(kept[i], pane, later));
        }
    }
    if some_debounces(all, other, later) {
        let i = choose|i: int|
            0 <= i < all.len() && line_debounces(#[trigger] all[i], other, later);
        if i < kept.len() {
            assert(line_debounces(kept[i], other, later));
        }
    }
    if some_debounces(kept, other, later) {
        let i = choose|i: int|
            0 <= i < kept.len() && line_debounces(#[trigger] kept[i], other, later);
        assert(line_debounces(all[i], other, later));
    }
}

/// Once an event of a pane has been recorded, the pane's next events are skipped
/// before the end of the window, and only there, also where the clock has stepped back.
/// The pane's name holds no newline.
pub proof fn recording_debounces(content: Seq<char>, pane: Seq<char>, now: nat, later: int)
    requires
        !pane.contains('\n'),
        now <= u64::MAX,
    ensures
        is_debounced(recorded(content, pane, now), pane, later) == (later - now
            < DEBOUNCE_WINDOW_MS),
{
    recorded_lines_read_back(content, pane, now, pane.push(' '), later);
}

/// Recording an event of a pane changes nothing for the later events of the others. The
/// pane's name holds no newline, and the clock has not stepped far back.
pub proof fn recording_leaves_other_panes(
    content: Seq<char>,
    pane: Seq<char>,
    now: nat,
    other: Seq<char>,
    later: int,
)
    requires
        !pane.contains('\n'),
        now <= u64::MAX,
        reaches(now as int, later),
        other != pane,
    ensures
        is_debounced(recorded(content, pane, now), other, later) == is_debounced(
            content,
            other,
            later,
        ),
{
    recorded_lines_read_back(content, pane, now, other, later);
}

/// A pane's next event is skipped for half a second, and what was recorded of another
/// pane is kept for ten seconds and forgotten afterwards.
pub proof fn entries_last_ten_seconds(
    line: Seq<char>,
    other: Seq<char>,
    ms: nat,
    pane: Seq<char>,
    now: int,
    lines: (Seq<Seq<char>>, Seq<Seq<char>>),
)
    requires
        entry_of(line) == Some((other, ms)),
    ensures
        line_debounces(line, other, now) <==> now - ms < 500,
        other != pane ==> !line_debounces(line, pane, now),
        other != pane && now - ms < 10_000 ==> kept_lines(seq![line], pane, now) == seq![
            entry_line(other, ms),
        ],
        other == pane || now - ms >= 10_000 ==> kept_lines(seq![line], pane, now).len() == 0,
        kept_lines(lines.0 + lines.1, pane, now) == kept_lines(lines.0, pane, now) + kept_lines(
            lines.1,
            pane,
            now,
        ),
    decreases lines.1.len(),
{
    assert(seq![line].drop_last() =~= Seq::empty());
    assert(seq![line].last() == line);
    assert(kept_lines(Seq::empty(), pane, now) =~= Seq::empty());
    if other != pane && now - ms < 10_000 {
        assert(kept_lines(seq![line], pane, now) =~= seq![entry_line(other, ms)]);
    }
    let (a, b) = lines;
    if b.len() > 0 {
        assert((a + b).drop_last() =~= a + b.drop_last());
        entries_last_ten_seconds(line, other, ms, pane, now, (a, b.drop_last()));
        assert(kept_lines(a + b, pane, now) =~= kept_lines(a, pane, now) + kept_lines(
            b,
            pane,
            now,
        ));
    } else {
        assert(a + b =~= a);
        assert(kept_lines(b, pane, now) =~= Seq::empty());
        assert(kept_lines(a, pane, now) + kept_lines(b, pane, now) =~= kept_lines(a, pane, now));
    }
}

} // verus!
