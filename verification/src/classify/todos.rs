//! Sessions that open todos link to, and what the links decide.
use vstd::hash_map::StringHashMap;
use vstd::prelude::*;
use vstd::string::*;

use crate::order;
use crate::order::{Ranked, TextKey, TextRank};
use crate::text;

verus! {

/// A todo with the sessions that it links to.
#[derive(Debug)]
pub struct TodoItem {
    pub id: String,
    pub text: String,
    pub stream: Option<String>,
    pub done: bool,
    pub sessions: Vec<String>,
}

/// What a session is linked to.
#[derive(Debug)]
pub struct LinkedTodo {
    pub id: String,
    pub text: String,
    pub stream_slug: Option<String>,
}

/// The link that a todo gives.
pub open spec fn link_of(todo: TodoItem) -> LinkedTodo {
    LinkedTodo { id: todo.id, text: todo.text, stream_slug: todo.stream }
}

/// Whether an open todo links to a session.
pub open spec fn links_to(todo: TodoItem, session: Seq<char>) -> bool {
    !todo.done && text::texts(todo.sessions@).contains(session)
}

/// Which todo links to a session: the first open one that lists it.
pub open spec fn first_link(todos: Seq<TodoItem>, session: Seq<char>) -> Option<int>
    decreases todos.len(),
{
    if todos.len() == 0 {
        None
    } else {
        let before = first_link(todos.drop_last(), session);
        if before is Some {
            before
        } else if links_to(todos.last(), session) {
            Some(todos.len() - 1)
        } else {
            None
        }
    }
}

/// What [`first_link`] gives: an open todo that lists the session, and none before
/// it does.
pub proof fn first_link_is_first(todos: Seq<TodoItem>, session: Seq<char>)
    ensures
        match first_link(todos, session) {
            Some(k) => 0 <= k < todos.len() && links_to(todos[k], session) && (forall|i: int|
                0 <= i < k ==> !links_to(#[trigger] todos[i], session)),
            None => forall|i: int|
                0 <= i < todos.len() ==> !links_to(#[trigger] todos[i], session),
        },
    decreases todos.len(),
{
    if todos.len() > 0 {
        first_link_is_first(todos.drop_last(), session);
        assert forall|i: int| 0 <= i < todos.len() - 1 implies todos.drop_last()[i]
            == #[trigger] todos[i] by {}
    }
}

/// The sessions that open todos link to, each with its link.
pub struct SessionTodoIndex {
    links: StringHashMap<LinkedTodo>,
    sessions: Vec<String>,
}

impl SessionTodoIndex {
    #[verifier::type_invariant]
    spec fn lists_linked_sessions(self) -> bool {
        forall|s: Seq<char>| #[trigger]
            self.sessions().contains(s) ==> self.links().contains_key(s)
    }

    /// The link of each linked session.
    pub closed spec fn links(self) -> Map<Seq<char>, LinkedTodo> {
        self.links@
    }

    /// The linked sessions, in the order in which they were linked.
    pub closed spec fn sessions(self) -> Seq<Seq<char>> {
        text::texts(self.sessions@)
    }

    /// Whether this is the index of `todos`: it links exactly the sessions that an
    /// open todo lists, each to the first such todo, and lists each of them once.
    pub open spec fn indexes(self, todos: Seq<TodoItem>) -> bool {
        &&& forall|s: Seq<char>| #[trigger]
            self.links().contains_key(s) <==> first_link(todos, s) is Some
        &&& forall|s: Seq<char>| #[trigger]
            self.links().contains_key(s) ==> self.links()[s] == link_of(
                todos[first_link(todos, s)->0],
            )
        &&& self.sessions().no_duplicates()
        &&& forall|s: Seq<char>| #[trigger]
            self.sessions().contains(s) <==> self.links().contains_key(s)
    }

    /// The link of a session, where it has one.
    pub fn get(&self, session: &str) -> (r: Option<&LinkedTodo>)
        ensures
            match r {
                Some(link) => self.links().contains_key(session@) && *link == self.links()[session@],
                None => !self.links().contains_key(session@),
            },
    {
        self.links.get(session)
    }
}

/// The note on a session that a later todo links to as well.
pub open spec fn duplicate_note(todo: Seq<char>, session: Seq<char>, first: Seq<char>) -> Seq<char> {
    "todo "@ + todo + " duplicates session "@ + session + " linked by todo "@ + first
        + "; keeping first link"@
}

/// The notes on the sessions of `todo`, given the todos before it.
pub open spec fn notes_on(earlier: Seq<TodoItem>, todo: TodoItem, sessions: Seq<Seq<char>>) -> Seq<
    Seq<char>,
>
    decreases sessions.len(),
{
    if sessions.len() == 0 {
        Seq::empty()
    } else {
        let rest = notes_on(earlier, todo, sessions.drop_last());
        let session = sessions.last();
        match first_link(earlier, session) {
            Some(k) => if earlier[k].id@ != todo.id@ {
                rest.push(duplicate_note(todo.id@, session, earlier[k].id@))
            } else {
                rest
            },
            None => rest,
        }
    }
}

/// The notes on sessions that two different todos link to.
pub open spec fn duplicate_notes(todos: Seq<TodoItem>) -> Seq<Seq<char>>
    decreases todos.len(),
{
    if todos.len() == 0 {
        Seq::empty()
    } else if todos.last().done {
        duplicate_notes(todos.drop_last())
    } else {
        duplicate_notes(todos.drop_last()) + notes_on(
            todos.drop_last(),
            todos.last(),
            text::texts(todos.last().sessions@),
        )
    }
}

fn write_duplicate_note(todo: &str, session: &str, first: &str) -> (r: String)
    ensures
        r@ == duplicate_note(todo@, session@, first@),
{
    let mut note = "todo ".to_owned();
    note.append(todo);
    note.append(" duplicates session ");
    note.append(session);
    note.append(" linked by todo ");
    note.append(first);
    note.append("; keeping first link");
    note
}

/// Whether the index holds the links of `earlier`, and those of `todo` to the
/// sessions in `part`.
spec fn half_indexed(
    links: Map<Seq<char>, LinkedTodo>,
    sessions: Seq<Seq<char>>,
    earlier: Seq<TodoItem>,
    todo: TodoItem,
    part: Seq<Seq<char>>,
) -> bool {
    &&& forall|s: Seq<char>| #[trigger]
        links.contains_key(s) <==> (first_link(earlier, s) is Some || part.contains(s))
    &&& forall|s: Seq<char>| #[trigger]
        links.contains_key(s) ==> links[s] == match first_link(earlier, s) {
            Some(k) => link_of(earlier[k]),
            None => link_of(todo),
        }
    &&& sessions.no_duplicates()
    &&& forall|s: Seq<char>| #[trigger] sessions.contains(s) <==> links.contains_key(s)
}

/// Builds the index of the sessions that open todos link to. The first link of a
/// session stands; a note tells of each later one by another todo.
pub fn build_session_todo_index(todos: &Vec<TodoItem>) -> (r: (SessionTodoIndex, Vec<String>))
    ensures
        r.0.indexes(todos@),
        text::texts(r.1@) == duplicate_notes(todos@),
{
    let mut links: StringHashMap<LinkedTodo> = StringHashMap::new();
    let mut sessions: Vec<String> = Vec::new();
    let mut notes: Vec<String> = Vec::new();
    let mut i: usize = 0;
    proof {
        assert(text::texts(notes@) =~= Seq::empty());
    }
    while i < todos.len()
        invariant
            i <= todos@.len(),
            forall|s: Seq<char>| #[trigger]
                links@.contains_key(s) <==> first_link(todos@.take(i as int), s) is Some,
            forall|s: Seq<char>| #[trigger]
                links@.contains_key(s) ==> links@[s] == link_of(
                    todos@.take(i as int)[first_link(todos@.take(i as int), s)->0],
                ),
            text::texts(sessions@).no_duplicates(),
            forall|s: Seq<char>| #[trigger]
                text::texts(sessions@).contains(s) <==> links@.contains_key(s),
            text::texts(notes@) == duplicate_notes(todos@.take(i as int)),
        decreases todos@.len() - i,
    {
        let ghost earlier = todos@.take(i as int);
        let ghost todo = todos@[i as int];
        let ghost wanted = text::texts(todo.sessions@);
        let ghost noted = text::texts(notes@);
        proof {
            assert(todos@.take(i + 1).drop_last() =~= earlier);
        }
        if !todos[i].done {
            let mut j: usize = 0;
            proof {
                assert(noted + notes_on(earlier, todo, wanted.take(0)) =~= noted);
            }
            while j < todos[i].sessions.len()
                invariant
                    i < todos@.len(),
                    earlier == todos@.take(i as int),
                    todo == todos@[i as int],
                    wanted == text::texts(todo.sessions@),
                    j <= todo.sessions@.len(),
                    half_indexed(
                        links@,
                        text::texts(sessions@),
                        earlier,
                        todo,
                        wanted.take(j as int),
                    ),
                    text::texts(notes@) == noted + notes_on(
                        earlier,
                        todo,
                        wanted.take(j as int),
                    ),
                decreases todo.sessions@.len() - j,
            {
                let session = &todos[i].sessions[j];
                let ghost part = wanted.take(j as int);
                let ghost longer = wanted.take(j + 1);
                let ghost so_far = text::texts(notes@);
                let ghost known = links@;
                let ghost listed = text::texts(sessions@);
                proof {
                    assert(longer.drop_last() =~= part);
                    assert(longer.last() == session@);
                    assert(longer =~= part.push(session@));
                    assert(longer[j as int] == session@);
                    assert forall|s: Seq<char>| #[trigger] longer.contains(s) <==> (part.contains(s)
                        || s == session@) by {
                        if part.contains(s) {
                            let k = choose|k: int| 0 <= k < part.len() && part[k] == s;
                            assert(longer[k] == s);
                        }
                        if longer.contains(s) && s != session@ {
                            let k = choose|k: int| 0 <= k < longer.len() && longer[k] == s;
                            assert(part[k] == s);
                        }
                    }
                }
                match links.get(session.as_str()) {
                    Some(first) => {
                        proof {
                            if first_link(earlier, session@) is Some {
                                first_link_is_first(earlier, session@);
                            }
                        }
                        if !text::same(first.id.as_str(), todos[i].id.as_str()) {
                            let note = write_duplicate_note(
                                todos[i].id.as_str(),
                                session.as_str(),
                                first.id.as_str(),
                            );
                            notes.push(note);
                            proof {
                                assert(first_link(earlier, session@) is Some);
                                assert(text::texts(notes@) =~= so_far.push(note@));
                            }
                        }
                    },
                    None => {
                        links.insert(
                            session.clone(),
                            LinkedTodo {
                                id: todos[i].id.clone(),
                                text: todos[i].text.clone(),
                                stream_slug: todos[i].stream.clone(),
                            },
                        );
                        sessions.push(session.clone());
                        proof {
                            assert(links@[session@] == link_of(todo));
                            assert(text::texts(sessions@) =~= listed.push(session@));
                            assert(!listed.contains(session@));
                            assert forall|s: Seq<char>| #[trigger] text::texts(
                                sessions@,
                            ).contains(s) <==> links@.contains_key(s) by {
                                let all = listed.push(session@);
                                assert(all[listed.len() as int] == session@);
                                if listed.contains(s) {
                                    let k = choose|k: int| 0 <= k < listed.len() && listed[k] == s;
                                    assert(all[k] == s);
                                }
                                if all.contains(s) && s != session@ {
                                    let k = choose|k: int| 0 <= k < all.len() && all[k] == s;
                                    assert(listed[k] == s);
                                }
                            }
                        }
                    },
                }
                proof {
                    assert(half_indexed(links@, text::texts(sessions@), earlier, todo, longer));
                    assert(text::texts(notes@) =~= noted + notes_on(earlier, todo, longer));
                }
                j += 1;
            }
            proof {
                assert(wanted.take(j as int) =~= wanted);
            }
        }
        proof {
            let all = todos@.take(i + 1);
            assert forall|s: Seq<char>| #[trigger] links@.contains_key(s) <==> first_link(
                all,
                s,
            ) is Some by {}
            assert forall|s: Seq<char>| #[trigger] links@.contains_key(s) implies links@[s]
                == link_of(all[first_link(all, s)->0]) by {
                if first_link(earlier, s) is Some {
                    first_link_is_first(earlier, s);
                }
            }
        }
        i += 1;
    }
    proof {
        assert(todos@.take(i as int) =~= todos@);
    }
    (SessionTodoIndex { links, sessions }, notes)
}

/// A linked session whose todo names a stream.
#[derive(Debug)]
pub struct LinkCandidate {
    pub session_id: String,
    pub todo_id: String,
    pub slug: String,
}

impl LinkCandidate {
    /// The texts of the session, the todo and the slug.
    pub open spec fn texts(self) -> (Seq<char>, Seq<char>, Seq<char>) {
        (self.session_id@, self.todo_id@, self.slug@)
    }
}

/// The texts of candidates.
pub open spec fn candidate_texts(candidates: Seq<LinkCandidate>) -> Seq<
    (Seq<char>, Seq<char>, Seq<char>),
> {
    candidates.map_values(|c: LinkCandidate| c.texts())
}

/// The linked sessions among `sessions` whose todo names a stream.
pub open spec fn candidates_among(
    sessions: Seq<Seq<char>>,
    links: Map<Seq<char>, LinkedTodo>,
) -> Seq<(Seq<char>, Seq<char>, Seq<char>)>
    decreases sessions.len(),
{
    if sessions.len() == 0 {
        Seq::empty()
    } else {
        let rest = candidates_among(sessions.drop_last(), links);
        let session = sessions.last();
        match links[session].stream_slug {
            Some(slug) => rest.push((session, links[session].id@, slug@)),
            None => rest,
        }
    }
}

/// Texts as keys.
pub open spec fn text_keys(texts: Seq<Seq<char>>) -> Seq<TextKey> {
    texts.map_values(|t: Seq<char>| TextKey(t))
}

/// The linked sessions in the order of their ids.
pub open spec fn sessions_in_order(index: SessionTodoIndex) -> Seq<Seq<char>> {
    order::stably_sorted(index.sessions(), text_keys(index.sessions()))
}

impl SessionTodoIndex {
    /// The linked sessions whose todo names a stream, in the order of their ids.
    pub fn candidates(&self) -> (r: Vec<LinkCandidate>)
        ensures
            candidate_texts(r@) == candidates_among(sessions_in_order(*self), self.links()),
    {
        proof {
            use_type_invariant(self);
        }
        let mut ranks: Vec<TextRank> = Vec::new();
        let mut i: usize = 0;
        while i < self.sessions.len()
            invariant
                i <= self.sessions@.len(),
                ranks@.len() == i,
                forall|k: int|
                    0 <= k < i ==> (#[trigger] ranks@[k]).key() == TextKey(self.sessions@[k]@),
            decreases self.sessions@.len() - i,
        {
            ranks.push(TextRank { chars: text::chars_of(self.sessions[i].as_str()) });
            i += 1;
        }
        let ghost listed = text::texts(self.sessions@);
        proof {
            assert(order::keys_of(ranks@) =~= text_keys(listed));
        }
        let positions = order::sort_positions(&ranks);
        let ghost sorted = sessions_in_order(*self);
        proof {
            assert(sorted =~= order::as_ints(positions@).map_values(|k: int| listed[k]));
        }
        let mut out: Vec<LinkCandidate> = Vec::new();
        let mut a: usize = 0;
        proof {
            assert(candidate_texts(out@) =~= Seq::empty());
        }
        while a < positions.len()
            invariant
                a <= positions@.len(),
                listed == text::texts(self.sessions@),
                listed == self.sessions(),
                sorted == order::as_ints(positions@).map_values(|k: int| listed[k]),
                forall|k: int|
                    0 <= k < positions@.len() ==> #[trigger] positions@[k] < self.sessions@.len(),
                forall|s: Seq<char>| #[trigger]
                    self.sessions().contains(s) ==> self.links().contains_key(s),
                candidate_texts(out@) == candidates_among(sorted.take(a as int), self.links()),
            decreases positions@.len() - a,
        {
            let session = &self.sessions[positions[a]];
            let ghost before = candidate_texts(out@);
            proof {
                assert(sorted.take(a + 1).drop_last() =~= sorted.take(a as int));
                assert(sorted.take(a + 1).last() == session@);
                assert(listed[positions@[a as int] as int] == session@);
                assert(self.sessions().contains(session@));
            }
            if let Some(link) = self.links.get(session.as_str()) {
                if let Some(slug) = &link.stream_slug {
                    out.push(
                        LinkCandidate {
                            session_id: session.clone(),
                            todo_id: link.id.clone(),
                            slug: slug.clone(),
                        },
                    );
                    proof {
                        assert(candidate_texts(out@) =~= before.push(
                            (session@, link.id@, slug@),
                        ));
                    }
                }
            }
            a += 1;
        }
        proof {
            assert(sorted.take(a as int) =~= sorted);
        }
        out
    }
}

/// The note on a linked session whose slug names no stream.
pub open spec fn missing_stream_note(todo: Seq<char>, slug: Seq<char>, session: Seq<char>) -> Seq<
    char,
> {
    "todo "@ + todo + " references slug '"@ + slug + "' with no matching stream; session "@
        + session + " left unclassified"@
}

/// What becomes of a linked session.
#[derive(Debug)]
pub enum LinkStep {
    /// The events of the session are assigned to the stream, as a todo link.
    Assign { session_id: String, stream_id: String },
    /// The session stays as it is; the note says why.
    Note(String),
}

/// The source under which a todo's link assigns events.
pub const TODO_LINK_SOURCE: &'static str = "todo_link";

/// Decides what becomes of a linked session, given the stream that its slug names.
pub fn settle_link(candidate: &LinkCandidate, stream_id: Option<&str>) -> (r: LinkStep)
    ensures
        match stream_id {
            Some(id) => r matches LinkStep::Assign { session_id, stream_id: stream } && session_id@
                == candidate.session_id@ && stream@ == id@,
            None => r matches LinkStep::Note(note) && note@ == missing_stream_note(
                candidate.todo_id@,
                candidate.slug@,
                candidate.session_id@,
            ),
        },
{
    match stream_id {
        Some(id) => LinkStep::Assign {
            session_id: candidate.session_id.clone(),
            stream_id: id.to_owned(),
        },
        None => {
            let mut note = "todo ".to_owned();
            note.append(candidate.todo_id.as_str());
            note.append(" references slug '");
            note.append(candidate.slug.as_str());
            note.append("' with no matching stream; session ");
            note.append(candidate.session_id.as_str());
            note.append(" left unclassified");
            LinkStep::Note(note)
        },
    }
}

/// The slug of the first session that has one.
pub open spec fn first_slug(sessions: Seq<Seq<char>>, slugs: Map<Seq<char>, String>) -> Option<
    Seq<char>,
>
    decreases sessions.len(),
{
    if sessions.len() == 0 {
        None
    } else if slugs.contains_key(sessions[0]) {
        Some(slugs[sessions[0]]@)
    } else {
        first_slug(sessions.skip(1), slugs)
    }
}

/// The stream that a todo gets: only an open one without a stream gets one, that of
/// its first session that was assigned.
pub open spec fn backfilled(todo: TodoItem, slugs: Map<Seq<char>, String>) -> Option<Seq<char>> {
    if todo.stream is Some || todo.done {
        None
    } else {
        first_slug(text::texts(todo.sessions@), slugs)
    }
}

/// The line that tells of a backfilled stream.
pub open spec fn backfill_line(slug: Seq<char>, todo: Seq<char>) -> Seq<char> {
    "Backfilled stream '"@ + slug + "' → "@ + todo
}

/// The lines that tell of the backfilled streams of `todos`.
pub open spec fn backfill_lines(todos: Seq<TodoItem>, slugs: Map<Seq<char>, String>) -> Seq<
    Seq<char>,
>
    decreases todos.len(),
{
    if todos.len() == 0 {
        Seq::empty()
    } else {
        let rest = backfill_lines(todos.drop_last(), slugs);
        match backfilled(todos.last(), slugs) {
            Some(slug) => rest.push(backfill_line(slug, todos.last().id@)),
            None => rest,
        }
    }
}

/// Whether `after` is `todo` with the stream that it gets.
pub open spec fn is_backfilled(
    todo: TodoItem,
    after: TodoItem,
    slugs: Map<Seq<char>, String>,
) -> bool {
    &&& after.id == todo.id
    &&& after.text == todo.text
    &&& after.done == todo.done
    &&& after.sessions == todo.sessions
    &&& match backfilled(todo, slugs) {
        Some(slug) => text::opt_text(after.stream) == Some(slug),
        None => after.stream == todo.stream,
    }
}

fn slug_for(todo: &TodoItem, slugs: &StringHashMap<String>) -> (r: Option<String>)
    ensures
        text::opt_text(r) == backfilled(*todo, slugs@),
{
    if todo.stream.is_some() || todo.done {
        return None;
    }
    let ghost wanted = text::texts(todo.sessions@);
    let mut i: usize = 0;
    proof {
        assert(wanted.skip(0) =~= wanted);
    }
    while i < todo.sessions.len()
        invariant
            i <= todo.sessions@.len(),
            wanted == text::texts(todo.sessions@),
            todo.stream is None,
            !todo.done,
            first_slug(wanted, slugs@) == first_slug(wanted.skip(i as int), slugs@),
        decreases todo.sessions@.len() - i,
    {
        proof {
            assert(wanted.skip(i as int)[0] == todo.sessions@[i as int]@);
            assert(wanted.skip(i as int).skip(1) =~= wanted.skip(i + 1));
        }
        if let Some(slug) = slugs.get(todo.sessions[i].as_str()) {
            return Some(slug.clone());
        }
        i += 1;
    }
    None
}

/// Gives open todos without a stream the stream that one of their sessions was
/// assigned to; the lines tell of each. Where no line comes back nothing changed.
pub fn backfill_todo_streams(todos: Vec<TodoItem>, slugs: &StringHashMap<String>) -> (r: (
    Vec<TodoItem>,
    Vec<String>,
))
    ensures
        r.0@.len() == todos@.len(),
        forall|i: int|
            0 <= i < todos@.len() ==> is_backfilled(todos@[i], #[trigger] r.0@[i], slugs@),
        text::texts(r.1@) == backfill_lines(todos@, slugs@),
{
    let ghost all = todos@;
    let mut out: Vec<TodoItem> = Vec::new();
    let mut lines: Vec<String> = Vec::new();
    proof {
        assert(text::texts(lines@) =~= Seq::empty());
    }
    for todo in it: todos
        invariant
            it.seq() == all,
            out@.len() == it.index(),
            forall|i: int|
                0 <= i < out@.len() ==> is_backfilled(all[i], #[trigger] out@[i], slugs@),
            text::texts(lines@) == backfill_lines(all.take(it.index()), slugs@),
    {
        let ghost n = it.index();
        let ghost before = text::texts(lines@);
        proof {
            assert(all.take(n + 1).drop_last() =~= all.take(n));
            assert(all.take(n + 1).last() == todo);
        }
        let slug = slug_for(&todo, slugs);
        match slug {
            Some(slug) => {
                let mut line = "Backfilled stream '".to_owned();
                line.append(slug.as_str());
                line.append("' → ");
                line.append(todo.id.as_str());
                lines.push(line);
                proof {
                    assert(text::texts(lines@) =~= before.push(backfill_line(slug@, todo.id@)));
                }
                out.push(
                    TodoItem {
                        id: todo.id,
                        text: todo.text,
                        stream: Some(slug),
                        done: todo.done,
                        sessions: todo.sessions,
                    },
                );
            },
            None => {
                out.push(todo);
            },
        }
    }
    proof {
        assert(all.take(all.len() as int) =~= all);
    }
    (out, lines)
}

/// A todo is written to only to give it a stream that it lacked: one that is done,
/// or has a stream, or none of whose sessions was assigned, stays as it was.
pub proof fn backfill_touches_streamless_open_todos_only(
    todo: TodoItem,
    after: TodoItem,
    slugs: Map<Seq<char>, String>,
)
    requires
        is_backfilled(todo, after, slugs),
        todo.done || todo.stream is Some || (forall|i: int|
            0 <= i < todo.sessions@.len() ==> !slugs.contains_key(
                (#[trigger] text::texts(todo.sessions@)[i]),
            )),
    ensures
        after == todo,
{
    no_slug_without_an_assigned_session(text::texts(todo.sessions@), slugs);
}

proof fn no_slug_without_an_assigned_session(
    sessions: Seq<Seq<char>>,
    slugs: Map<Seq<char>, String>,
)
    ensures
        (forall|i: int| 0 <= i < sessions.len() ==> !slugs.contains_key(#[trigger] sessions[i]))
            ==> first_slug(sessions, slugs) is None,
    decreases sessions.len(),
{
    if sessions.len() > 0 {
        no_slug_without_an_assigned_session(sessions.skip(1), slugs);
        assert forall|i: int| 0 <= i < sessions.len() - 1 implies sessions.skip(1)[i]
            == #[trigger] sessions[i + 1] by {}
        if forall|i: int| 0 <= i < sessions.len() ==> !slugs.contains_key(#[trigger] sessions[i]) {
            assert forall|i: int| 0 <= i < sessions.skip(1).len() implies !slugs.contains_key(
                #[trigger] sessions.skip(1)[i],
            ) by {
                assert(!slugs.contains_key(sessions[i + 1]));
            }
        }
    }
}

/// A session is linked exactly where an open todo lists it, and then to the first such
/// todo: the link gives that todo's id, its text and its stream. `k` is where the todo
/// stands.
pub proof fn sessions_are_linked_to_the_first_open_todo(
    index: SessionTodoIndex,
    todos: Seq<TodoItem>,
    session: Seq<char>,
) -> (k: int)
    requires
        index.indexes(todos),
    ensures
        index.links().contains_key(session) <==> (exists|i: int, j: int|
            0 <= i < todos.len() && 0 <= j < todos[i].sessions@.len() && !todos[i].done
                && (#[trigger] todos[i].sessions@[j])@ == session),
        index.links().contains_key(session) ==> {
            let link = index.links()[session];
            &&& 0 <= k < todos.len() && !todos[k].done
            &&& link.id@ == todos[k].id@
            &&& link.text@ == todos[k].text@
            &&& text::opt_text(link.stream_slug) == text::opt_text(todos[k].stream)
            &&& exists|j: int|
                0 <= j < todos[k].sessions@.len() && (#[trigger] todos[k].sessions@[j])@ == session
            &&& forall|i: int, j: int|
                0 <= i < k && !todos[i].done && 0 <= j < todos[i].sessions@.len() ==> (
                #[trigger] todos[i].sessions@[j])@ != session
        },
{
    first_link_is_first(todos, session);
    let found = first_link(todos, session);
    let k = match found {
        Some(k) => k,
        None => 0,
    };
    if found is Some {
        let listed = text::texts(todos[k].sessions@);
        let j = choose|j: int| 0 <= j < listed.len() && listed[j] == session;
        assert(todos[k].sessions@[j]@ == session);
        assert(index.links().contains_key(session));
        assert forall|i: int, j: int|
            0 <= i < k && !todos[i].done && 0 <= j < todos[i].sessions@.len() implies (
        #[trigger] todos[i].sessions@[j])@ != session by {
            assert(!links_to(todos[i], session));
            assert(text::texts(todos[i].sessions@)[j] == todos[i].sessions@[j]@);
        }
    } else {
        assert forall|i: int, j: int|
            0 <= i < todos.len() && 0 <= j < todos[i].sessions@.len()
                && !todos[i].done implies (#[trigger] todos[i].sessions@[j])@ != session by {
            assert(!links_to(todos[i], session));
            assert(text::texts(todos[i].sessions@)[j] == todos[i].sessions@[j]@);
        }
    }
    k
}

/// A session that an open todo lists is noted exactly where the first open todo before
/// that lists it is another one: the note names both, the later first.
pub proof fn later_links_are_noted(
    earlier: Seq<TodoItem>,
    todo: TodoItem,
    sessions: Seq<Seq<char>>,
    session: Seq<char>,
)
    ensures
        duplicate_notes(earlier.push(todo)) == (if todo.done {
            duplicate_notes(earlier)
        } else {
            duplicate_notes(earlier) + notes_on(earlier, todo, text::texts(todo.sessions@))
        }),
        notes_on(earlier, todo, sessions.push(session)) == notes_on(earlier, todo, sessions)
            + notes_on(earlier, todo, seq![session]),
        first_link(earlier, session) is None ==> notes_on(earlier, todo, seq![session]).len() == 0,
        first_link(earlier, session) matches Some(k) ==> {
            &&& earlier[k].id@ == todo.id@ ==> notes_on(earlier, todo, seq![session]).len() == 0
            &&& earlier[k].id@ != todo.id@ ==> notes_on(earlier, todo, seq![session]) == seq![
                "todo "@ + todo.id@ + " duplicates session "@ + session + " linked by todo "@
                    + earlier[k].id@ + "; keeping first link"@,
            ]
        },
{
    assert(earlier.push(todo).drop_last() =~= earlier);
    assert(sessions.push(session).drop_last() =~= sessions);
    assert(seq![session].drop_last() =~= Seq::empty());
    assert(seq![session].last() == session);
    assert(notes_on(earlier, todo, Seq::empty()) =~= Seq::empty());
    let one = notes_on(earlier, todo, seq![session]);
    match first_link(earlier, session) {
        Some(k) => if earlier[k].id@ != todo.id@ {
            assert(one =~= seq![duplicate_note(todo.id@, session, earlier[k].id@)]);
        } else {
            assert(one =~= Seq::empty());
        },
        None => {
            assert(one =~= Seq::empty());
        },
    }
    assert(notes_on(earlier, todo, sessions.push(session)) =~= notes_on(earlier, todo, sessions)
        + one);
}

/// Each linked session whose todo names a stream is a candidate, with that todo and that
/// stream, and no other is.
pub proof fn candidates_carry_their_todo_and_stream(
    a: Seq<Seq<char>>,
    b: Seq<Seq<char>>,
    session: Seq<char>,
    links: Map<Seq<char>, LinkedTodo>,
)
    ensures
        candidates_among(a + b, links) == candidates_among(a, links) + candidates_among(b, links),
        links[session].stream_slug is None ==> candidates_among(seq![session], links).len() == 0,
        links[session].stream_slug matches Some(slug) ==> candidates_among(seq![session], links)
            == seq![(session, links[session].id@, slug@)],
    decreases b.len(),
{
    assert(seq![session].drop_last() =~= Seq::empty());
    assert(seq![session].last() == session);
    assert(candidates_among(Seq::empty(), links) =~= Seq::empty());
    if let Some(slug) = links[session].stream_slug {
        assert(candidates_among(seq![session], links) =~= seq![
            (session, links[session].id@, slug@),
        ]);
    }
    if b.len() > 0 {
        assert((a + b).drop_last() =~= a + b.drop_last());
        candidates_carry_their_todo_and_stream(a, b.drop_last(), session, links);
        assert(candidates_among(a + b, links) =~= candidates_among(a, links) + candidates_among(
            b,
            links,
        ));
    } else {
        assert(a + b =~= a);
        assert(candidates_among(b, links) =~= Seq::empty());
        assert(candidates_among(a, links) + candidates_among(b, links) =~= candidates_among(
            a,
            links,
        ));
    }
}

/// The linked sessions are gone through in the order of their ids, every one of them.
pub proof fn linked_sessions_stand_in_order(
    index: SessionTodoIndex,
    session: Seq<char>,
    a: int,
    b: int,
)
    ensures
        sessions_in_order(index).len() == index.sessions().len(),
        sessions_in_order(index).contains(session) <==> index.sessions().contains(session),
        0 <= a < b < sessions_in_order(index).len() ==> order::text_leq(
            sessions_in_order(index)[a],
            sessions_in_order(index)[b],
        ),
{
    let listed = index.sessions();
    let keys = text_keys(listed);
    order::sorted_items_stand_in_order(listed, keys);
    if 0 <= a < b < listed.len() {
        let positions = order::stable_positions(keys);
        assert(order::text_leq(keys[positions[a]].0, keys[positions[b]].0));
    }
}

/// A candidate gives its session, its todo and its slug.
pub proof fn candidates_tell_what_they_are(candidates: Seq<LinkCandidate>, i: int)
    requires
        0 <= i < candidates.len(),
    ensures
        candidate_texts(candidates).len() == candidates.len(),
        candidate_texts(candidates)[i] == (
            candidates[i].session_id@,
            candidates[i].todo_id@,
            candidates[i].slug@,
        ),
{
}

/// The slug that is taken is that of the first session that was assigned. `k` is where it
/// stands.
proof fn the_first_assigned_session_counts(
    sessions: Seq<Seq<char>>,
    slugs: Map<Seq<char>, String>,
) -> (k: int)
    ensures
        first_slug(sessions, slugs) is None <==> (forall|i: int|
            0 <= i < sessions.len() ==> !slugs.contains_key(#[trigger] sessions[i])),
        first_slug(sessions, slugs) matches Some(slug) ==> 0 <= k < sessions.len()
            && slugs.contains_key(sessions[k]) && slug == slugs[sessions[k]]@ && (forall|i: int|
            0 <= i < k ==> !slugs.contains_key(#[trigger] sessions[i])),
    decreases sessions.len(),
{
    if sessions.len() == 0 {
        0
    } else if slugs.contains_key(sessions[0]) {
        0
    } else {
        let rest = sessions.skip(1);
        let k = the_first_assigned_session_counts(rest, slugs);
        assert forall|i: int| 0 < i < sessions.len() implies #[trigger] sessions[i] == rest[i
            - 1] by {}
        if first_slug(rest, slugs) is Some {
            assert(slugs.contains_key(sessions[k + 1]));
        }
        k + 1
    }
}

/// An open todo without a stream gets the one that its first assigned session went to,
/// and keeps all else. `k` is where that session stands in its list.
pub proof fn todos_get_the_stream_of_their_first_assigned_session(
    todo: TodoItem,
    after: TodoItem,
    slugs: Map<Seq<char>, String>,
) -> (k: int)
    requires
        is_backfilled(todo, after, slugs),
    ensures
        after.id@ == todo.id@,
        after.text@ == todo.text@,
        after.done == todo.done,
        after.sessions@ == todo.sessions@,
        todo.done || todo.stream is Some ==> text::opt_text(after.stream) == text::opt_text(
            todo.stream,
        ),
        !todo.done && todo.stream is None ==> {
            &&& after.stream is None <==> (forall|i: int|
                0 <= i < todo.sessions@.len() ==> !slugs.contains_key(
                    (#[trigger] todo.sessions@[i])@,
                ))
            &&& after.stream matches Some(stream) ==> 0 <= k < todo.sessions@.len()
                && slugs.contains_key(todo.sessions@[k]@) && stream@
                == slugs[todo.sessions@[k]@]@ && (forall|i: int|
                0 <= i < k ==> !slugs.contains_key((#[trigger] todo.sessions@[i])@))
        },
{
    let listed = text::texts(todo.sessions@);
    assert forall|i: int| 0 <= i < todo.sessions@.len() implies listed[i] == (
    #[trigger] todo.sessions@[i])@ by {}
    let k = the_first_assigned_session_counts(listed, slugs);
    if !todo.done && todo.stream is None {
        if after.stream is None {
            assert forall|i: int| 0 <= i < todo.sessions@.len() implies !slugs.contains_key(
                (#[trigger] todo.sessions@[i])@,
            ) by {
                assert(!slugs.contains_key(listed[i]));
            }
        } else {
            assert(slugs.contains_key(todo.sessions@[k]@));
            assert forall|i: int| 0 <= i < k implies !slugs.contains_key(
                (#[trigger] todo.sessions@[i])@,
            ) by {
                assert(!slugs.contains_key(listed[i]));
            }
        }
    }
    k
}

/// A line tells of each todo that got a stream, in their order and of no other: it names
/// the stream and the todo.
pub proof fn backfills_are_told(todos: Seq<TodoItem>, todo: TodoItem, slugs: Map<Seq<char>, String>)
    ensures
        backfill_lines(Seq::empty(), slugs).len() == 0,
        backfilled(todo, slugs) is None ==> backfill_lines(todos.push(todo), slugs)
            == backfill_lines(todos, slugs),
        backfilled(todo, slugs) matches Some(slug) ==> backfill_lines(todos.push(todo), slugs)
            == backfill_lines(todos, slugs).push(
            "Backfilled stream '"@ + slug + "' → "@ + todo.id@,
        ),
{
    assert(todos.push(todo).drop_last() =~= todos);
}

/// The note on a linked session whose stream is missing names the todo, the slug and the
/// session, in that order.
pub proof fn missing_streams_are_noted_by_name(todo: Seq<char>, slug: Seq<char>, session: Seq<char>)
    ensures
        ({
            let note = missing_stream_note(todo, slug, session);
            &&& text::stands_in("todo "@ + todo + " references slug '"@, note)
            &&& text::stands_in("slug '"@ + slug + "' with no matching stream"@, note)
            &&& text::stands_in("session "@ + session + " left unclassified"@, note)
        }),
{
    let note = missing_stream_note(todo, slug, session);
    let none = Seq::<char>::empty();
    reveal_strlit(" references slug '");
    reveal_strlit(" references ");
    reveal_strlit("slug '");
    reveal_strlit("' with no matching stream; session ");
    reveal_strlit("' with no matching stream");
    reveal_strlit("; ");
    reveal_strlit("session ");
    assert(" references slug '"@ =~= " references "@ + "slug '"@);
    assert("' with no matching stream; session "@ =~= "' with no matching stream"@ + ("; "@
        + "session "@));
    let rest = slug + "' with no matching stream; session "@ + session + " left unclassified"@;
    assert(note =~= none + ("todo "@ + todo + " references slug '"@) + rest);
    assert(note =~= ("todo "@ + todo + " references "@) + ("slug '"@ + slug
        + "' with no matching stream"@) + ("; "@ + "session "@ + session + " left unclassified"@));
    assert(note =~= ("todo "@ + todo + " references slug '"@ + slug + "' with no matching stream"@
        + "; "@) + ("session "@ + session + " left unclassified"@) + none);
}

} // verus!
