//! Priorities: their slugs, their listing, and changes to them.
use vstd::prelude::*;
use vstd::string::*;

use crate::text;

verus! {

broadcast use vstd::seq_lib::group_seq_properties;

/// What a new priority is given.
#[derive(Clone, Debug)]
pub struct AddOptions {
    pub title: String,
    pub slug: Option<String>,
    pub value: i32,
}

/// How far a priority has come.
#[derive(Clone, Copy, Debug, PartialEq, Eq, Structural)]
pub enum PriorityStatus {
    Active,
    Done,
    Dropped,
}

/// A priority.
#[derive(Debug)]
pub struct Priority {
    pub title: String,
    pub slug: String,
    pub value: i32,
    pub status: PriorityStatus,
}

/// What a line of the priorities file holds.
#[derive(Debug)]
pub enum PriorityItem {
    Priority(Priority),
    /// The text of a line that is no priority.
    Other(String),
}

/// A line of the priorities file.
#[derive(Debug)]
pub struct FileLine {
    pub item: PriorityItem,
    /// The characters that end the line.
    pub line_ending: String,
}

/// What was found wrong with a line of a file.
#[derive(Debug)]
pub struct Diagnostic {
    /// Whether the file is that of the priorities.
    pub in_priorities: bool,
    /// The name under which the file is shown.
    pub file: String,
    pub line_number: usize,
    pub reason: String,
}

/// The name under which a status is shown.
pub open spec fn status_name(status: PriorityStatus) -> Seq<char> {
    match status {
        PriorityStatus::Active => "active"@,
        PriorityStatus::Done => "done"@,
        PriorityStatus::Dropped => "dropped"@,
    }
}

/// The name under which a status is shown.
pub fn status_label(status: PriorityStatus) -> (r: &'static str)
    ensures
        r@ == status_name(status),
{
    match status {
        PriorityStatus::Active => "active",
        PriorityStatus::Done => "done",
        PriorityStatus::Dropped => "dropped",
    }
}

/// Whether a line is the priority with a slug.
pub open spec fn is_priority(line: FileLine, slug: Seq<char>) -> bool {
    line.item matches PriorityItem::Priority(p) && p.slug@ == slug
}

/// The position of the first priority with a slug; the number of lines where there
/// is none.
pub open spec fn position_of(items: Seq<FileLine>, slug: Seq<char>, from: int) -> int
    decreases items.len() - from,
{
    if from >= items.len() {
        items.len() as int
    } else if is_priority(items[from], slug) {
        from
    } else {
        position_of(items, slug, from + 1)
    }
}

/// Finds the first priority with a slug.
pub fn priority_index(items: &Vec<FileLine>, slug: &str) -> (r: Option<usize>)
    ensures
        match r {
            Some(k) => k < items@.len() && k == position_of(items@, slug@, 0) && is_priority(
                items@[k as int],
                slug@,
            ),
            None => position_of(items@, slug@, 0) == items@.len(),
        },
{
    let mut i: usize = 0;
    while i < items.len()
        invariant
            i <= items@.len(),
            position_of(items@, slug@, 0) == position_of(items@, slug@, i as int),
        decreases items@.len() - i,
    {
        if let PriorityItem::Priority(p) = &items[i].item {
            if text::same(p.slug.as_str(), slug) {
                return Some(i);
            }
        }
        i += 1;
    }
    None
}

/// Whether a character may stand in a slug.
pub open spec fn is_slug_char(c: char) -> bool {
    ('a' <= c && c <= 'z') || ('0' <= c && c <= '9') || c == '-'
}

/// Whether a text is a slug.
pub open spec fn is_slug(s: Seq<char>) -> bool {
    s.len() > 0 && forall|i: int| 0 <= i < s.len() ==> is_slug_char(#[trigger] s[i])
}

/// Why a text is no slug; `None` where it is one.
pub open spec fn slug_fault(slug: Seq<char>) -> Option<Seq<char>> {
    if slug.len() == 0 {
        Some("priority slug must not be empty"@)
    } else if !is_slug(slug) {
        Some("priority slug must contain only lowercase ASCII letters, digits, or '-'"@)
    } else {
        None
    }
}

/// Accepts a slug that was given.
pub fn validate_explicit_slug(slug: &str) -> (r: Result<String, String>)
    ensures
        match slug_fault(slug@) {
            Some(fault) => r matches Err(message) && message@ == fault,
            None => r matches Ok(accepted) && accepted@ == slug@,
        },
{
    let chars = text::chars_of(slug);
    if chars.len() == 0 {
        return Err("priority slug must not be empty".to_owned());
    }
    let mut i: usize = 0;
    while i < chars.len()
        invariant
            i <= chars@.len(),
            chars@ == slug@,
            chars@.len() > 0,
            forall|k: int| 0 <= k < i ==> is_slug_char(#[trigger] slug@[k]),
        decreases chars@.len() - i,
    {
        let c: char = chars[i];
        if !(('a' <= c && c <= 'z') || ('0' <= c && c <= '9') || c == '-') {
            proof {
                assert(!is_slug_char(slug@[i as int]));
            }
            return Err(
                "priority slug must contain only lowercase ASCII letters, digits, or '-'".to_owned(),
            );
        }
        i += 1;
    }
    Ok(slug.to_owned())
}

/// What `char::to_lowercase` gives for a character.
pub uninterp spec fn lowercase_of(c: char) -> Seq<char>;

/// Whether a character is a capital of ASCII.
pub open spec fn is_capital(c: char) -> bool {
    'A' <= c && c <= 'Z'
}

/// Whether a character is one of ASCII.
pub open spec fn is_ascii(c: char) -> bool {
    (c as int) < 0x80
}

/// The small letter of a capital of ASCII; any other character as it is.
pub open spec fn small(c: char) -> char {
    if is_capital(c) {
        (c as int + 32) as char
    } else {
        c
    }
}

/// Whether a text is of ASCII.
pub open spec fn is_ascii_text(s: Seq<char>) -> bool {
    forall|i: int| 0 <= i < s.len() ==> is_ascii(#[trigger] s[i])
}

/// A text with the small letters in place of the capitals of ASCII.
pub open spec fn smalls(s: Seq<char>) -> Seq<char> {
    s.map_values(|c: char| small(c))
}

/// Calls `char::to_lowercase`: the characters that are the lower case of one. Which
/// they are depends on the character alone. None of them is a capital of ASCII. A
/// capital of ASCII gives its small letter, and any other character of ASCII itself.
#[verifier::external_body]
fn lowercase(c: char) -> (r: Vec<char>)
    ensures
        r@ == lowercase_of(c),
        forall|i: int| 0 <= i < r@.len() ==> !is_capital(#[trigger] r@[i]),
        is_ascii(c) ==> r@ == seq![small(c)],
{
    c.to_lowercase().collect()
}

/// A text in lower case.
pub open spec fn lowered(s: Seq<char>) -> Seq<char>
    decreases s.len(),
{
    if s.len() == 0 {
        Seq::empty()
    } else {
        lowered(s.drop_last()) + lowercase_of(s.last())
    }
}

fn lower(s: &str) -> (r: Vec<char>)
    ensures
        r@ == lowered(s@),
        without_capitals(r@),
        is_ascii_text(s@) ==> r@ == smalls(s@),
{
    let chars = text::chars_of(s);
    let mut out: Vec<char> = Vec::new();
    let mut i: usize = 0;
    proof {
        assert(out@ =~= lowered(s@.take(0)));
    }
    while i < chars.len()
        invariant
            i <= chars@.len(),
            chars@ == s@,
            out@ == lowered(s@.take(i as int)),
            without_capitals(out@),
            is_ascii_text(s@) ==> out@ == smalls(s@.take(i as int)),
        decreases chars@.len() - i,
    {
        let ghost before = out@;
        proof {
            assert(s@.take(i + 1).drop_last() =~= s@.take(i as int));
            assert(s@.take(i + 1) =~= s@.take(i as int).push(s@[i as int]));
        }
        let mut lower = lowercase(chars[i]);
        let ghost more = lower@;
        out.append(&mut lower);
        proof {
            assert(without_capitals(out@)) by {
                assert forall|k: int| 0 <= k < out@.len() implies !is_capital(
                    #[trigger] out@[k],
                ) by {
                    if k < before.len() {
                        assert(!is_capital(before[k]));
                    } else {
                        assert(!is_capital(more[k - before.len()]));
                    }
                }
            }
            if is_ascii_text(s@) {
                assert(is_ascii(s@[i as int]));
                assert(out@ =~= smalls(s@.take(i + 1)));
            }
        }
        i += 1;
    }
    proof {
        assert(s@.take(i as int) =~= s@);
    }
    out
}

/// Whether a character is a letter or digit of ASCII.
pub open spec fn is_alphanumeric(c: char) -> bool {
    ('a' <= c && c <= 'z') || ('A' <= c && c <= 'Z') || ('0' <= c && c <= '9')
}

/// The longest runs of letters and digits of ASCII.
pub open spec fn runs(s: Seq<char>) -> Seq<Seq<char>>
    decreases s.len(),
{
    if s.len() == 0 {
        Seq::empty()
    } else {
        let before = s.drop_last();
        let rest = runs(before);
        if !is_alphanumeric(s.last()) {
            rest
        } else if before.len() > 0 && is_alphanumeric(before.last()) && rest.len() > 0 {
            rest.update(rest.len() - 1, rest.last().push(s.last()))
        } else {
            rest.push(seq![s.last()])
        }
    }
}

proof fn a_run_is_open(s: Seq<char>)
    requires
        s.len() > 0,
        is_alphanumeric(s.last()),
    ensures
        runs(s).len() > 0,
{
}

/// The slug that a text in lower case gives: its runs of letters and digits, with `-`
/// between them.
pub open spec fn slug_of(s: Seq<char>) -> Seq<char> {
    text::joined(runs(s), seq!['-'])
}

/// Makes a slug from a text in lower case; `None` where it has no letter and no digit.
pub fn slug_from_lowercase(chars: &Vec<char>) -> (r: Option<String>)
    ensures
        if slug_of(chars@).len() == 0 {
            r is None
        } else {
            r matches Some(slug) && slug@ == slug_of(chars@)
        },
        slug_of(chars@).len() == 0 <==> runs(chars@).len() == 0,
{
    let ghost dash = seq!['-'];
    let mut slug = String::new();
    let mut previous_was_separator = false;
    let mut i: usize = 0;
    proof {
        assert(slug@ =~= slug_of(chars@.take(0)));
    }
    while i < chars.len()
        invariant
            i <= chars@.len(),
            dash == seq!['-'],
            previous_was_separator == (i > 0 && !is_alphanumeric(chars@[i - 1]) && runs(
                chars@.take(i as int),
            ).len() > 0),
            slug@ == slug_of(chars@.take(i as int)) + (if previous_was_separator {
                dash
            } else {
                Seq::empty()
            }),
            slug_of(chars@.take(i as int)).len() == 0 <==> runs(chars@.take(i as int)).len() == 0,
        decreases chars@.len() - i,
    {
        let c: char = chars[i];
        let ghost earlier = chars@.take(i as int);
        let ghost rest = runs(earlier);
        let ghost longer = chars@.take(i + 1);
        let ghost before = slug@;
        proof {
            assert(longer.drop_last() =~= earlier);
            assert(longer.last() == c);
            if i > 0 {
                assert(earlier.last() == chars@[i - 1]);
            }
        }
        if ('a' <= c && c <= 'z') || ('A' <= c && c <= 'Z') || ('0' <= c && c <= '9') {
            slug.push(c);
            proof {
                if i > 0 && is_alphanumeric(earlier.last()) {
                    a_run_is_open(earlier);
                    let grown = rest.update(rest.len() - 1, rest.last().push(c));
                    assert(grown.drop_last() =~= rest.drop_last());
                    if rest.len() == 1 {
                        assert(slug_of(longer) == rest[0].push(c));
                        assert(slug_of(earlier) == rest[0]);
                    } else {
                        assert(slug_of(longer) =~= slug_of(earlier).push(c));
                    }
                } else {
                    let grown = rest.push(seq![c]);
                    assert(grown.drop_last() =~= rest);
                    if rest.len() == 0 {
                        assert(slug_of(longer) == seq![c]);
                        assert(slug@ =~= seq![c]);
                    } else {
                        assert(slug_of(longer) == slug_of(earlier) + dash + seq![c]);
                    }
                }
                assert(slug@ =~= slug_of(longer) + Seq::empty());
            }
            previous_was_separator = false;
        } else if slug.as_str().unicode_len() > 0 && !previous_was_separator {
            slug.push('-');
            previous_was_separator = true;
            proof {
                assert(slug@ =~= slug_of(longer) + dash);
            }
        } else {
            proof {
                assert(runs(longer) == rest);
            }
        }
        i += 1;
    }
    proof {
        assert(chars@.take(i as int) =~= chars@);
    }
    if slug.as_str().unicode_len() == 0 {
        return None;
    }
    if previous_was_separator {
        let kept = text::chars_of(slug.as_str());
        let count: usize = kept.len();
        let shorter = text::string_from(&kept, 0, count - 1);
        proof {
            assert(shorter@ =~= slug_of(chars@));
        }
        return Some(shorter);
    }
    proof {
        assert(slug@ =~= slug_of(chars@));
    }
    Some(slug)
}

/// Makes a slug from a title. What it makes is a slug that it makes of itself again.
pub fn slug_from_title(title: &str) -> (r: Result<String, String>)
    ensures
        r matches Ok(slug) ==> is_made_slug(slug@),
        is_made_slug(title@) ==> (r matches Ok(slug) && slug@ == title@),
        is_ascii_text(title@) ==> lowered(title@) == smalls(title@),
        if slug_of(lowered(title@)).len() == 0 {
            r matches Err(message) && message@
                == "priority title must contain at least one ASCII letter or digit"@
        } else {
            r matches Ok(slug) && slug@ == slug_of(lowered(title@))
        },
{
    let chars = lower(title);
    proof {
        if runs(chars@).len() > 0 {
            made_slugs_are_slugs(chars@);
        }
        if is_made_slug(title@) {
            assert forall|i: int| 0 <= i < title@.len() implies is_ascii(#[trigger] title@[i])
                && small(title@[i]) == title@[i] by {
                assert(is_slug_char(title@[i]));
            }
            assert(smalls(title@) =~= title@);
            made_slugs_make_themselves(title@);
        }
    }
    match slug_from_lowercase(&chars) {
        Some(slug) => Ok(slug),
        None => Err("priority title must contain at least one ASCII letter or digit".to_owned()),
    }
}

/// The slug of a new priority: the one given, or one made from the title. The error
/// is the message that says why there is none.
pub open spec fn new_slug(title: Seq<char>, explicit: Option<Seq<char>>) -> Result<
    Seq<char>,
    Seq<char>,
> {
    match explicit {
        Some(slug) => match slug_fault(slug) {
            Some(fault) => Err(fault),
            None => Ok(slug),
        },
        None => if slug_of(lowered(title)).len() == 0 {
            Err("priority title must contain at least one ASCII letter or digit"@)
        } else {
            Ok(slug_of(lowered(title)))
        },
    }
}

/// The slug of a new priority: the one given, or one made from the title.
pub fn resolve_slug(title: &str, explicit_slug: Option<&str>) -> (r: Result<String, String>)
    ensures
        match new_slug(title@, text::opt_str(explicit_slug)) {
            Ok(slug) => r matches Ok(resolved) && resolved@ == slug,
            Err(fault) => r matches Err(message) && message@ == fault,
        },
{
    match explicit_slug {
        Some(slug) => validate_explicit_slug(slug),
        None => slug_from_title(title),
    }
}

/// Whether a line is the priority that was added: an active one, on a line of its own.
pub open spec fn is_added(line: FileLine, options: AddOptions, slug: Seq<char>) -> bool {
    &&& line.item matches PriorityItem::Priority(p)
    &&& p.title == options.title
    &&& p.slug@ == slug
    &&& p.value == options.value
    &&& p.status == PriorityStatus::Active
    &&& line.line_ending@ == "\n"@
}

/// Adds a priority behind the others; gives its slug. It must have a slug, and one
/// that no other priority has.
pub fn add_priority(items: &mut Vec<FileLine>, options: AddOptions) -> (r: Result<
    String,
    String,
>)
    ensures
        match new_slug(options.title@, text::opt_text(options.slug)) {
            Ok(slug) => if position_of(old(items)@, slug, 0) < old(items)@.len() {
                &&& r matches Err(message) && message@ == "priority '"@ + slug
                    + "' already exists"@
                &&& final(items)@ == old(items)@
            } else {
                &&& r matches Ok(added) && added@ == slug
                &&& final(items)@.len() == old(items)@.len() + 1
                &&& final(items)@.drop_last() == old(items)@
                &&& is_added(final(items)@.last(), options, slug)
            },
            Err(fault) => {
                &&& r matches Err(message) && message@ == fault
                &&& final(items)@ == old(items)@
            },
        },
{
    let explicit: Option<&str> = match &options.slug {
        Some(slug) => Some(slug.as_str()),
        None => None,
    };
    let slug: String = match resolve_slug(options.title.as_str(), explicit) {
        Ok(slug) => slug,
        Err(fault) => {
            return Err(fault);
        },
    };
    if priority_index(items, slug.as_str()).is_some() {
        let mut message = "priority '".to_owned();
        message.append(slug.as_str());
        message.append("' already exists");
        return Err(message);
    }
    let ghost before = items@;
    items.push(
        FileLine {
            item: PriorityItem::Priority(
                Priority {
                    title: options.title,
                    slug: slug.clone(),
                    value: options.value,
                    status: PriorityStatus::Active,
                },
            ),
            line_ending: "\n".to_owned(),
        },
    );
    proof {
        assert(items@.drop_last() =~= before);
    }
    Ok(slug)
}

/// A change to a priority.
#[derive(Clone, Copy, Debug)]
pub enum PriorityChange {
    Value(i32),
    Done,
}

/// A priority after a change.
pub open spec fn changed(p: Priority, change: PriorityChange) -> Priority {
    match change {
        PriorityChange::Value(value) => Priority { value, ..p },
        PriorityChange::Done => Priority { status: PriorityStatus::Done, ..p },
    }
}

/// A line with a priority after a change to that.
pub open spec fn changed_line(line: FileLine, change: PriorityChange) -> FileLine {
    FileLine {
        item: PriorityItem::Priority(changed(line.item->Priority_0, change)),
        line_ending: line.line_ending,
    }
}

/// Changes the first priority with a slug; every other line stays as it is.
pub fn change_priority(items: &mut Vec<FileLine>, slug: &str, change: PriorityChange) -> (r:
    Result<(), String>)
    ensures
        ({
            let k = position_of(old(items)@, slug@, 0);
            if k < old(items)@.len() {
                &&& r is Ok
                &&& old(items)@[k].item is Priority
                &&& final(items)@ == old(items)@.update(
                    k,
                    changed_line(old(items)@[k], change),
                )
            } else {
                &&& r matches Err(message) && message@ == "priority '"@ + slug@ + "' not found"@
                &&& final(items)@ == old(items)@
            }
        }),
{
    let ghost before = items@;
    match priority_index(items, slug) {
        Some(k) => {
            let mut taken = FileLine {
                item: PriorityItem::Other(String::new()),
                line_ending: String::new(),
            };
            items.set_and_swap(k, &mut taken);
            if let PriorityItem::Priority(p) = taken.item {
                let mut p = p;
                match change {
                    PriorityChange::Value(value) => {
                        p.value = value;
                    },
                    PriorityChange::Done => {
                        p.status = PriorityStatus::Done;
                    },
                }
                items.set(
                    k,
                    FileLine {
                        item: PriorityItem::Priority(p),
                        line_ending: taken.line_ending,
                    },
                );
            }
            proof {
                assert(items@ =~= before.update(k as int, items@[k as int]));
            }
            Ok(())
        },
        None => {
            let mut message = "priority '".to_owned();
            message.append(slug);
            message.append("' not found");
            Err(message)
        },
    }
}

/// The line of a priority.
pub open spec fn told(p: Priority) -> Seq<char> {
    "- "@ + p.title@ + " ["@ + p.slug@ + "] value="@ + text::signed_decimal(p.value as int)
        + " status="@ + status_name(p.status) + "\n"@
}

/// The line of a priority; none for a line that is no priority.
pub open spec fn listed(line: FileLine) -> Seq<char> {
    match line.item {
        PriorityItem::Priority(p) => told(p),
        PriorityItem::Other(_) => Seq::empty(),
    }
}

/// The lines of the priorities.
pub open spec fn all_listed(items: Seq<FileLine>) -> Seq<char>
    decreases items.len(),
{
    if items.len() == 0 {
        Seq::empty()
    } else {
        all_listed(items.drop_last()) + listed(items.last())
    }
}

/// The line of a diagnostic; none for one of another file.
pub open spec fn diagnosed(d: Diagnostic) -> Seq<char> {
    if d.in_priorities {
        "- "@ + d.file@ + " line "@ + text::decimal(d.line_number as nat) + ": "@ + d.reason@
            + "\n"@
    } else {
        Seq::empty()
    }
}

/// The lines of the diagnostics.
pub open spec fn all_diagnosed(diagnostics: Seq<Diagnostic>) -> Seq<char>
    decreases diagnostics.len(),
{
    if diagnostics.len() == 0 {
        Seq::empty()
    } else {
        all_diagnosed(diagnostics.drop_last()) + diagnosed(diagnostics.last())
    }
}

/// Whether there is a priority.
pub open spec fn has_priority(items: Seq<FileLine>) -> bool {
    exists|i: int| 0 <= i < items.len() && (#[trigger] items[i]).item is Priority
}

/// Whether something is wrong with the priorities file.
pub open spec fn has_fault(diagnostics: Seq<Diagnostic>) -> bool {
    exists|i: int| 0 <= i < diagnostics.len() && (#[trigger] diagnostics[i]).in_priorities
}

/// The listing of priorities and of what is wrong with their file.
pub open spec fn listing(items: Seq<FileLine>, diagnostics: Seq<Diagnostic>) -> Seq<char> {
    "PRIORITIES\n"@ + all_listed(items) + (if has_priority(items) {
        Seq::empty()
    } else {
        "No priorities yet.\n"@
    }) + (if has_fault(diagnostics) {
        "\nDIAGNOSTICS\n"@ + all_diagnosed(diagnostics)
    } else {
        Seq::empty()
    })
}

fn push_priority(out: &mut String, p: &Priority)
    ensures
        final(out)@ == old(out)@ + told(*p),
{
    let mut line = "- ".to_owned();
    line.append(p.title.as_str());
    line.append(" [");
    line.append(p.slug.as_str());
    line.append("] value=");
    text::push_signed(&mut line, p.value as i64);
    line.append(" status=");
    line.append(status_label(p.status));
    line.append("\n");
    out.append(line.as_str());
}

fn push_listed(out: &mut String, items: &Vec<FileLine>) -> (r: bool)
    ensures
        final(out)@ == old(out)@ + all_listed(items@),
        r == has_priority(items@),
{
    let ghost start = out@;
    let mut found = false;
    let mut i: usize = 0;
    proof {
        assert(start + all_listed(items@.take(0)) =~= start);
    }
    while i < items.len()
        invariant
            i <= items@.len(),
            out@ == start + all_listed(items@.take(i as int)),
            found == (exists|k: int| 0 <= k < i && (#[trigger] items@[k]).item is Priority),
        decreases items@.len() - i,
    {
        proof {
            assert(items@.take(i + 1).drop_last() =~= items@.take(i as int));
        }
        if let PriorityItem::Priority(p) = &items[i].item {
            push_priority(out, p);
            found = true;
            proof {
                assert(items@[i as int].item is Priority);
            }
        }
        proof {
            assert(out@ =~= start + all_listed(items@.take(i + 1)));
        }
        i += 1;
    }
    proof {
        assert(items@.take(i as int) =~= items@);
    }
    found
}

fn push_diagnosed(out: &mut String, diagnostics: &Vec<Diagnostic>)
    ensures
        final(out)@ == old(out)@ + all_diagnosed(diagnostics@),
{
    let ghost start = out@;
    let mut i: usize = 0;
    proof {
        assert(start + all_diagnosed(diagnostics@.take(0)) =~= start);
    }
    while i < diagnostics.len()
        invariant
            i <= diagnostics@.len(),
            out@ == start + all_diagnosed(diagnostics@.take(i as int)),
        decreases diagnostics@.len() - i,
    {
        proof {
            assert(diagnostics@.take(i + 1).drop_last() =~= diagnostics@.take(i as int));
        }
        let d: &Diagnostic = &diagnostics[i];
        if d.in_priorities {
            out.append("- ");
            out.append(d.file.as_str());
            out.append(" line ");
            text::push_decimal(out, d.line_number as u64);
            out.append(": ");
            out.append(d.reason.as_str());
            out.append("\n");
        }
        proof {
            assert(out@ =~= start + all_diagnosed(diagnostics@.take(i + 1)));
        }
        i += 1;
    }
    proof {
        assert(diagnostics@.take(i as int) =~= diagnostics@);
    }
}

fn any_fault(diagnostics: &Vec<Diagnostic>) -> (r: bool)
    ensures
        r == has_fault(diagnostics@),
{
    let mut i: usize = 0;
    while i < diagnostics.len()
        invariant
            i <= diagnostics@.len(),
            forall|k: int| 0 <= k < i ==> !(#[trigger] diagnostics@[k]).in_priorities,
        decreases diagnostics@.len() - i,
    {
        if diagnostics[i].in_priorities {
            proof {
                assert(diagnostics@[i as int].in_priorities);
            }
            return true;
        }
        i += 1;
    }
    false
}

/// Lists priorities and what is wrong with their file.
pub fn render_ls(items: &Vec<FileLine>, diagnostics: &Vec<Diagnostic>) -> (r: String)
    ensures
        r@ == listing(items@, diagnostics@),
{
    let mut out = "PRIORITIES\n".to_owned();
    if !push_listed(&mut out, items) {
        out.append("No priorities yet.\n");
    }
    if any_fault(diagnostics) {
        out.append("\nDIAGNOSTICS\n");
        push_diagnosed(&mut out, diagnostics);
    }
    proof {
        assert(out@ =~= listing(items@, diagnostics@));
    }
    out
}

/// Whether a text holds no capital of ASCII, as one in lower case does not.
pub open spec fn without_capitals(s: Seq<char>) -> bool {
    forall|i: int| 0 <= i < s.len() ==> !is_capital(#[trigger] s[i])
}

/// Whether a text is a slug that does not start or end with `-` and has no two of them
/// in a row.
pub open spec fn is_made_slug(s: Seq<char>) -> bool {
    &&& is_slug(s)
    &&& s[0] != '-'
    &&& s.last() != '-'
    &&& forall|i: int| 0 <= i < s.len() - 1 ==> !(#[trigger] s[i] == '-' && s[i + 1] == '-')
}

/// Whether a text is letters and digits of ASCII, in lower case.
pub open spec fn is_word(s: Seq<char>) -> bool {
    s.len() > 0 && forall|i: int|
        0 <= i < s.len() ==> is_slug_char(#[trigger] s[i]) && s[i] != '-'
}

proof fn runs_are_words(s: Seq<char>)
    requires
        without_capitals(s),
    ensures
        forall|i: int| 0 <= i < runs(s).len() ==> is_word(#[trigger] runs(s)[i]),
    decreases s.len(),
{
    if s.len() > 0 {
        let before = s.drop_last();
        let rest = runs(before);
        let c = s.last();
        assert(without_capitals(before)) by {
            assert forall|i: int| 0 <= i < before.len() implies !is_capital(
                #[trigger] before[i],
            ) by {
                assert(!is_capital(s[i]));
            }
        }
        runs_are_words(before);
        assert(!is_capital(s[s.len() - 1]));
        if is_alphanumeric(c) {
            assert forall|i: int| 0 <= i < runs(s).len() implies is_word(
                #[trigger] runs(s)[i],
            ) by {
                if i < rest.len() {
                    assert(is_word(rest[i]));
                }
            }
        }
    }
}

proof fn joined_words(parts: Seq<Seq<char>>)
    requires
        parts.len() > 0,
        forall|i: int| 0 <= i < parts.len() ==> is_word(#[trigger] parts[i]),
    ensures
        is_made_slug(text::joined(parts, seq!['-'])),
    decreases parts.len(),
{
    let s = text::joined(parts, seq!['-']);
    let last = parts.last();
    assert(is_word(parts[parts.len() - 1]));
    if parts.len() == 1 {
        assert(s == last);
        assert(is_slug_char(s[0]) && s[0] != '-');
    } else {
        assert forall|i: int| 0 <= i < parts.drop_last().len() implies is_word(
            #[trigger] parts.drop_last()[i],
        ) by {
            assert(is_word(parts[i]));
        }
        joined_words(parts.drop_last());
        let front = text::joined(parts.drop_last(), seq!['-']);
        assert(s == front + seq!['-'] + last);
        assert forall|i: int| 0 <= i < s.len() implies is_slug_char(#[trigger] s[i]) by {
            if i < front.len() {
                assert(s[i] == front[i]);
            } else if i > front.len() {
                assert(s[i] == last[i - front.len() - 1]);
            }
        }
        assert(s[0] == front[0]);
        assert(s.last() == last[last.len() - 1]);
        assert forall|i: int| 0 <= i < s.len() - 1 implies !(#[trigger] s[i] == '-' && s[i + 1]
            == '-') by {
            if i + 1 < front.len() {
                assert(s[i] == front[i] && s[i + 1] == front[i + 1]);
            } else if i + 1 == front.len() {
                assert(s[i] == front.last());
            } else {
                assert(s[i + 1] == last[i - front.len()]);
            }
        }
    }
}

/// A slug that is made from a text in lower case is a slug, does not start or end
/// with `-`, and has no two of them in a row.
pub proof fn made_slugs_are_slugs(s: Seq<char>)
    requires
        without_capitals(s),
        runs(s).len() > 0,
    ensures
        is_made_slug(slug_of(s)),
{
    runs_are_words(s);
    joined_words(runs(s));
}

/// The runs of a text of words with single `-` between them, joined again, are the text
/// without a `-` at its end.
proof fn runs_join_again(s: Seq<char>)
    requires
        s.len() > 0,
        forall|i: int| 0 <= i < s.len() ==> is_slug_char(#[trigger] s[i]),
        s[0] != '-',
        forall|i: int| 0 <= i < s.len() - 1 ==> !(#[trigger] s[i] == '-' && s[i + 1] == '-'),
    ensures
        runs(s).len() > 0,
        slug_of(s) == if s.last() == '-' {
            s.drop_last()
        } else {
            s
        },
    decreases s.len(),
{
    let before = s.drop_last();
    let c = s.last();
    assert(is_slug_char(s[s.len() - 1]));
    assert(is_alphanumeric(c) == (c != '-'));
    if s.len() == 1 {
        assert(runs(before) =~= Seq::empty());
        assert(runs(s) =~= seq![seq![c]]);
        assert(slug_of(s) =~= s);
    } else {
        assert forall|i: int| 0 <= i < before.len() implies is_slug_char(#[trigger] before[i]) by {
            assert(is_slug_char(s[i]));
        }
        assert forall|i: int| 0 <= i < before.len() - 1 implies !(#[trigger] before[i] == '-'
            && before[i + 1] == '-') by {
            assert(!(s[i] == '-' && s[i + 1] == '-'));
        }
        runs_join_again(before);
        let rest = runs(before);
        let d = before.last();
        assert(d == s[s.len() - 2]);
        assert(is_slug_char(before[before.len() - 1]));
        assert(is_alphanumeric(d) == (d != '-'));
        assert(!(s[s.len() - 2] == '-' && s[s.len() - 2 + 1] == '-'));
        if c == '-' {
            assert(slug_of(s) == slug_of(before));
        } else if d != '-' {
            let grown = rest.update(rest.len() - 1, rest.last().push(c));
            assert(runs(s) == grown);
            assert(grown.drop_last() =~= rest.drop_last());
            if rest.len() == 1 {
                assert(slug_of(s) =~= rest[0].push(c));
                assert(slug_of(before) == rest[0]);
            }
            assert(slug_of(s) =~= slug_of(before).push(c));
            assert(slug_of(s) =~= s);
        } else {
            let grown = rest.push(seq![c]);
            assert(runs(s) == grown);
            assert(grown.drop_last() =~= rest);
            assert(slug_of(s) =~= slug_of(before) + seq!['-'] + seq![c]);
            assert(slug_of(s) =~= s);
        }
    }
}

/// A slug that was made makes itself again, and is accepted where a slug is given.
pub proof fn made_slugs_make_themselves(s: Seq<char>)
    requires
        is_made_slug(s),
    ensures
        slug_of(s) == s,
        slug_fault(s) is None,
{
    runs_join_again(s);
}

proof fn found_from(items: Seq<FileLine>, slug: Seq<char>, from: int, k: int)
    requires
        0 <= from <= k < items.len(),
        is_priority(items[k], slug),
    ensures
        position_of(items, slug, from) <= k,
    decreases k - from,
{
    if from < k && !is_priority(items[from], slug) {
        found_from(items, slug, from + 1, k);
    }
}

/// A priority is found under its slug once it has been added, so that it cannot be
/// added again.
pub proof fn added_priorities_are_found(
    items: Seq<FileLine>,
    added: FileLine,
    options: AddOptions,
    slug: Seq<char>,
)
    requires
        is_added(added, options, slug),
    ensures
        position_of(items.push(added), slug, 0) < items.push(added).len(),
{
    let after = items.push(added);
    assert(is_priority(after[items.len() as int], slug));
    found_from(after, slug, 0, items.len() as int);
}

proof fn prefix_found_from(items: Seq<FileLine>, added: FileLine, slug: Seq<char>, from: int)
    requires
        0 <= from,
        position_of(items, slug, from) < items.len(),
    ensures
        position_of(items.push(added), slug, from) == position_of(items, slug, from),
    decreases items.len() - from,
{
    if from < items.len() && !is_priority(items[from], slug) {
        prefix_found_from(items, added, slug, from + 1);
    }
}

/// Adding a priority leaves every other one where it was found.
pub proof fn adding_keeps_priorities_found(items: Seq<FileLine>, added: FileLine, slug: Seq<char>)
    requires
        position_of(items, slug, 0) < items.len(),
    ensures
        position_of(items.push(added), slug, 0) == position_of(items, slug, 0),
{
    prefix_found_from(items, added, slug, 0);
}

proof fn changed_found_from(
    items: Seq<FileLine>,
    k: int,
    change: PriorityChange,
    slug: Seq<char>,
    from: int,
)
    requires
        0 <= from,
        0 <= k < items.len(),
        items[k].item is Priority,
    ensures
        position_of(items.update(k, changed_line(items[k], change)), slug, from) == position_of(
            items,
            slug,
            from,
        ),
    decreases items.len() - from,
{
    if from < items.len() {
        changed_found_from(items, k, change, slug, from + 1);
    }
}

/// Changing a priority leaves every one of them where it was found.
pub proof fn changing_keeps_priorities_found(
    items: Seq<FileLine>,
    k: int,
    change: PriorityChange,
    slug: Seq<char>,
)
    requires
        0 <= k < items.len(),
        items[k].item is Priority,
    ensures
        position_of(items.update(k, changed_line(items[k], change)), slug, 0) == position_of(
            items,
            slug,
            0,
        ),
{
    changed_found_from(items, k, change, slug, 0);
}

/// The letters and digits of a text.
pub open spec fn kept_chars(s: Seq<char>) -> Seq<char> {
    s.filter(|c: char| is_alphanumeric(c))
}

proof fn runs_keep_chars(s: Seq<char>)
    ensures
        kept_chars(s) == text::concat(runs(s)),
    decreases s.len(),
{
    reveal(Seq::filter);
    if s.len() > 0 {
        let before = s.drop_last();
        let rest = runs(before);
        let c = s.last();
        runs_keep_chars(before);
        if is_alphanumeric(c) {
            if before.len() > 0 && is_alphanumeric(before.last()) && rest.len() > 0 {
                let grown = rest.update(rest.len() - 1, rest.last().push(c));
                assert(grown.drop_last() =~= rest.drop_last());
                assert(text::concat(grown) =~= text::concat(rest).push(c));
            } else {
                assert(rest.push(seq![c]).drop_last() =~= rest);
                assert(text::concat(rest.push(seq![c])) =~= text::concat(rest).push(c));
            }
        }
    }
}

proof fn dashes_are_left_out(parts: Seq<Seq<char>>)
    requires
        forall|i: int| 0 <= i < parts.len() ==> kept_chars(#[trigger] parts[i]) == parts[i],
    ensures
        kept_chars(text::joined(parts, seq!['-'])) == text::concat(parts),
    decreases parts.len(),
{
    let pred = |c: char| is_alphanumeric(c);
    reveal(Seq::filter);
    if parts.len() == 0 {
        assert(text::joined(parts, seq!['-']) =~= Seq::empty());
    } else if parts.len() == 1 {
        assert(kept_chars(parts[0]) == parts[0]);
        assert(text::concat(parts.drop_last()) =~= Seq::empty());
        assert(text::concat(parts) =~= parts[0]);
    } else {
        let earlier = parts.drop_last();
        assert forall|i: int| 0 <= i < earlier.len() implies kept_chars(#[trigger] earlier[i])
            == earlier[i] by {
            assert(kept_chars(parts[i]) == parts[i]);
        }
        dashes_are_left_out(earlier);
        let front = text::joined(earlier, seq!['-']);
        let dash = seq!['-'];
        assert(dash.drop_last() =~= Seq::empty());
        assert(Seq::<char>::empty().filter(pred) =~= Seq::empty());
        assert(dash.filter(pred) =~= Seq::empty());
        Seq::filter_distributes_over_add(front + dash, parts.last(), pred);
        Seq::filter_distributes_over_add(front, dash, pred);
        assert(kept_chars(parts[parts.len() - 1]) == parts[parts.len() - 1]);
        assert(kept_chars(text::joined(parts, seq!['-'])) =~= text::concat(parts));
    }
}

proof fn runs_are_kept_chars(s: Seq<char>)
    ensures
        forall|i: int| 0 <= i < runs(s).len() ==> kept_chars(#[trigger] runs(s)[i]) == runs(s)[i],
    decreases s.len(),
{
    reveal(Seq::filter);
    let pred = |c: char| is_alphanumeric(c);
    if s.len() > 0 {
        let rest = runs(s.drop_last());
        runs_are_kept_chars(s.drop_last());
        let c = s.last();
        if is_alphanumeric(c) {
            assert forall|i: int| 0 <= i < runs(s).len() implies kept_chars(#[trigger] runs(s)[i])
                == runs(s)[i] by {
                if i < rest.len() {
                    assert(kept_chars(rest[i]) == rest[i]);
                }
                let run = runs(s)[i];
                if i == runs(s).len() - 1 {
                    assert(run.last() == c);
                    if run.len() > 1 {
                        assert(run.drop_last() =~= rest.last());
                    } else {
                        assert(run.drop_last() =~= Seq::empty());
                    }
                    assert(run.filter(pred) =~= run.drop_last().filter(pred).push(c));
                    assert(Seq::<char>::empty().filter(pred) =~= Seq::empty());
                    assert(run =~= run.drop_last().push(c));
                }
            }
        }
    }
}

/// A slug that is made of a text has the letters and digits of the text, all of them and
/// in their order.
pub proof fn slugs_keep_letters_and_digits(s: Seq<char>)
    ensures
        kept_chars(slug_of(s)) == kept_chars(s),
{
    runs_keep_chars(s);
    runs_are_kept_chars(s);
    dashes_are_left_out(runs(s));
}

/// A slug that is given counts before the title, and is taken as it is or refused; only
/// without one the title makes it.
pub proof fn given_slugs_count_first(title: Seq<char>, other: Seq<char>, slug: Seq<char>)
    ensures
        new_slug(title, Some(slug)) == new_slug(other, Some(slug)),
        new_slug(title, Some(slug)) matches Ok(taken) ==> taken == slug && slug.len() > 0,
        new_slug(title, Some(slug)) is Ok <==> slug.len() > 0 && (forall|i: int|
            #![trigger slug[i]]
            0 <= i < slug.len() ==> 'a' <= slug[i] <= 'z' || '0' <= slug[i] <= '9' || slug[i]
                == '-'),
        new_slug(title, None) matches Ok(made) ==> made == slug_of(lowered(title)) && made.len()
            > 0,
        new_slug(title, None) is Err <==> slug_of(lowered(title)).len() == 0,
{
    if slug.len() > 0 && (forall|i: int|
        #![trigger slug[i]]
        0 <= i < slug.len() ==> 'a' <= slug[i] <= 'z' || '0' <= slug[i] <= '9' || slug[i] == '-') {
        assert(is_slug(slug));
    }
    if is_slug(slug) {
        assert forall|i: int| #![trigger slug[i]] 0 <= i < slug.len() implies 'a' <= slug[i] <= 'z'
            || '0' <= slug[i] <= '9' || slug[i] == '-' by {
            assert(is_slug_char(slug[i]));
        }
    }
}

/// A priority is found at the first line that has its slug, and is not found exactly where
/// no line has it.
pub proof fn the_first_of_a_slug_is_found(items: Seq<FileLine>, slug: Seq<char>, from: int)
    requires
        0 <= from <= items.len(),
    ensures
        from <= position_of(items, slug, from) <= items.len(),
        position_of(items, slug, from) < items.len() ==> (items[position_of(
            items,
            slug,
            from,
        )].item matches PriorityItem::Priority(p) && p.slug@ == slug),
        forall|i: int|
            from <= i < position_of(items, slug, from) ==> ((#[trigger] items[i]).item matches PriorityItem::Priority(
                p,
            ) ==> p.slug@ != slug),
    decreases items.len() - from,
{
    if from < items.len() && !is_priority(items[from], slug) {
        the_first_of_a_slug_is_found(items, slug, from + 1);
    }
}

/// A priority that was added has the title and the value that it was given, is active, and
/// ends its line.
pub proof fn added_priorities_are_as_given(line: FileLine, options: AddOptions, slug: Seq<char>)
    requires
        is_added(line, options, slug),
    ensures
        line.item matches PriorityItem::Priority(p) && p.title@ == options.title@ && p.slug@ == slug
            && p.value == options.value && p.status is Active,
        line.line_ending@ == "\n"@,
{
}

/// Giving a priority a value changes its value and nothing else, and finishing it makes it
/// done and changes nothing else.
pub proof fn changes_change_one_thing(line: FileLine, value: i32)
    requires
        line.item is Priority,
    ensures
        ({
            let before = line.item->Priority_0;
            let valued = changed_line(line, PriorityChange::Value(value));
            let finished = changed_line(line, PriorityChange::Done);
            &&& valued.line_ending@ == line.line_ending@
            &&& finished.line_ending@ == line.line_ending@
            &&& valued.item matches PriorityItem::Priority(p) && p.value == value && p.title@
                == before.title@ && p.slug@ == before.slug@ && p.status == before.status
            &&& finished.item matches PriorityItem::Priority(p) && p.status is Done && p.title@
                == before.title@ && p.slug@ == before.slug@ && p.value == before.value
        }),
{
}

/// The listing has a line for each priority, in their order, and none for other lines;
/// and one for each thing that is wrong with the file of priorities, in their order, and
/// none for other files.
pub proof fn listings_hold_each_priority(
    items: Seq<FileLine>,
    line: FileLine,
    diagnostics: Seq<Diagnostic>,
    diagnostic: Diagnostic,
)
    ensures
        line.item is Other ==> all_listed(items.push(line)) == all_listed(items),
        line.item matches PriorityItem::Priority(p) ==> all_listed(items.push(line)) == all_listed(
            items,
        ) + ("- "@ + p.title@ + " ["@ + p.slug@ + "] value="@ + text::signed_decimal(p.value as int)
            + " status="@ + status_name(p.status) + "\n"@),
        all_listed(Seq::empty()).len() == 0,
        !diagnostic.in_priorities ==> all_diagnosed(diagnostics.push(diagnostic)) == all_diagnosed(
            diagnostics,
        ),
        diagnostic.in_priorities ==> all_diagnosed(diagnostics.push(diagnostic)) == all_diagnosed(
            diagnostics,
        ) + ("- "@ + diagnostic.file@ + " line "@ + text::decimal(diagnostic.line_number as nat)
            + ": "@ + diagnostic.reason@ + "\n"@),
        all_diagnosed(Seq::empty()).len() == 0,
        status_name(PriorityStatus::Active) == "active"@ && status_name(PriorityStatus::Done)
            == "done"@ && status_name(PriorityStatus::Dropped) == "dropped"@,
{
    assert(items.push(line).drop_last() =~= items);
    assert(diagnostics.push(diagnostic).drop_last() =~= diagnostics);
    if line.item is Other {
        assert(all_listed(items.push(line)) =~= all_listed(items));
    }
    if !diagnostic.in_priorities {
        assert(all_diagnosed(diagnostics.push(diagnostic)) =~= all_diagnosed(diagnostics));
    }
}

} // verus!
