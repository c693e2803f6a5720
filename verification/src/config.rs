//! The list of events: one event to a line, as `name:YYYY-MM-DD`, with
//! comments from a `#` to the end of the line, and empty lines passed over.

use crate::date::{date_of_text, parse_date, CalendarDay, Date};
use crate::phrase::{decimal, decimal_text};
use crate::text::{
    find, is_white_space, leading_space, lemma_length_before, lemma_trimmed, length_before, texts,
    trim, trimmed,
};
use crate::Error;
use vstd::prelude::*;
use vstd::string::{StrSliceExecFns, StringExecFns};

verus! {

/// An event as the contracts see it.
pub struct EventView {
    pub name: Seq<char>,
    pub date: CalendarDay,
}

/// A named day.
#[derive(Debug)]
pub struct Event {
    pub name: String,
    pub date: Date,
}

impl View for Event {
    type V = EventView;

    open spec fn view(&self) -> EventView {
        EventView { name: self.name@, date: self.date@ }
    }
}

/// The events of a list, in the order of their lines.
#[derive(Debug)]
pub struct Reminders {
    pub events: Vec<Event>,
}

impl View for Reminders {
    type V = Seq<EventView>;

    open spec fn view(&self) -> Seq<EventView> {
        Seq::new(self.events@.len(), |i: int| self.events@[i]@)
    }
}

/// The two parts of a line that names an event: the name, which is what
/// stands before the first colon, and the text of the date, which is what
/// stands behind that colon, each without the white space around it.
/// `None` where the line holds no colon.
pub open spec fn entry_parts(text: Seq<char>) -> Option<(Seq<char>, Seq<char>)> {
    let colon = length_before(text, ':') as int;
    if colon == text.len() {
        None
    } else {
        Some((trimmed(text.take(colon)), trimmed(text.skip(colon + 1))))
    }
}

/// The event of a name and of what was made of its date's text: no event
/// without a name; else the event on that date, or the complaint about the
/// text behind the words `bad date: `.
pub open spec fn dated_event(name: Seq<char>, parsed: Result<(int, int, int), Seq<char>>) -> Result<
    EventView,
    Seq<char>,
> {
    if name.len() == 0 {
        Err("no name found"@)
    } else {
        match parsed {
            Ok((year, month, day)) => Ok(
                EventView { name, date: CalendarDay { year, month, day } },
            ),
            Err(complaint) => Err("bad date: "@ + complaint),
        }
    }
}

/// What a line says: its event, or why it names none.
pub open spec fn event_of_text(text: Seq<char>) -> Result<EventView, Seq<char>> {
    match entry_parts(text) {
        None => Err("no ':' found"@),
        Some((name, date)) => dated_event(name, date_of_text(date)),
    }
}

/// A name as an event bears it: not empty, with no white space at its
/// beginning or at its end.
pub open spec fn is_name(name: Seq<char>) -> bool {
    &&& name.len() > 0
    &&& !is_white_space(name.first())
    &&& !is_white_space(name.last())
}

/// The name of a line's event is what stands before the line's first colon
/// without the white space around it: it is a name, and it holds no colon.
pub proof fn lemma_event_name(text: Seq<char>)
    requires
        event_of_text(text) is Ok,
    ensures
        ({
            let name = event_of_text(text)->Ok_0.name;
            &&& name == trimmed(text.take(length_before(text, ':') as int))
            &&& is_name(name)
            &&& !name.contains(':')
        }),
{
    let before = text.take(length_before(text, ':') as int);
    let name = trimmed(before);
    lemma_length_before(text, ':');
    lemma_trimmed(before);
    assert forall|i: int| 0 <= i < name.len() implies name[i] != ':' by {
        assert(name[i] == before[i + leading_space(before)]);
    }
}

impl Event {
    /// The event bears a name, and its date lies in the calendar and in the
    /// supported years.
    pub open spec fn wf(self) -> bool {
        &&& is_name(self.name@)
        &&& self.date.wf()
    }

    /// Splits `name:date` at its first colon into the name and the text of
    /// the date, each without the white space around it.
    pub fn split(text: &str) -> (parts: Option<(&str, &str)>)
        ensures
            match parts {
                Some((name, date)) => entry_parts(text@) == Some((name@, date@)),
                None => entry_parts(text@) is None,
            },
    {
        match find(text, ':') {
            Some(colon) => {
                let length = text.unicode_len();
                Some(
                    (
                        trim(text.substring_char(0, colon)),
                        trim(text.substring_char(colon + 1, length)),
                    ),
                )
            },
            None => None,
        }
    }

    /// The event of the given name on the date that was read. Without a
    /// name there is no event; a date that could not be read is told by its
    /// complaint behind the words `bad date: `.
    pub fn dated(name: &str, parsed: Result<Date, String>) -> (event: Result<Event, String>)
        ensures
            match event {
                Ok(e) => name@.len() > 0 && e.name@ == name@ && parsed == Ok::<Date, String>(
                    e.date,
                ),
                Err(why) => if name@.len() == 0 {
                    why@ == "no name found"@
                } else {
                    parsed is Err && why@ == "bad date: "@ + parsed->Err_0@
                },
            },
    {
        if name.is_empty() {
            return Err(String::from_str("no name found"));
        }
        match parsed {
            Ok(date) => Ok(Event { name: String::from_str(name), date }),
            Err(complaint) => {
                let mut why = String::from_str("bad date: ");
                why.append(complaint.as_str());
                Err(why)
            },
        }
    }

    /// Reads an event from `name:YYYY-MM-DD`. The name is what stands
    /// before the first colon, the date what stands behind it, each without
    /// the white space around it. A line without a colon, without a name or
    /// without a date that can be read is no event.
    pub fn from_string(s: String) -> (event: Result<Event, String>)
        ensures
            match event {
                Ok(e) => e.wf() && event_of_text(s@) == Ok::<EventView, Seq<char>>(e@),
                Err(why) => event_of_text(s@) == Err::<EventView, Seq<char>>(why@),
            },
    {
        match Event::split(s.as_str()) {
            Some((name, date)) => {
                let event = Event::dated(name, parse_date(date));
                proof {
                    if event is Ok {
                        lemma_event_name(s@);
                    }
                }
                event
            },
            None => Err(String::from_str("no ':' found")),
        }
    }
}

/// A line without its comment: what stands before the first `#`.
pub open spec fn without_comment(line: Seq<char>) -> Seq<char> {
    line.take(length_before(line, '#') as int)
}

/// What a line of the list holds: nothing where only white space stands
/// before the comment, else an event or the reason why it is none.
pub open spec fn line_event(line: Seq<char>) -> Option<Result<EventView, Seq<char>>> {
    let text = without_comment(line);
    if trimmed(text).len() == 0 {
        None
    } else {
        Some(event_of_text(text))
    }
}

/// The line holds something that is no event.
pub open spec fn line_fails(line: Seq<char>) -> bool {
    line_event(line) matches Some(Err(_))
}

/// How many lines stand before the first one that fails; the number of
/// lines where none fails.
pub open spec fn lines_before_failure(lines: Seq<Seq<char>>) -> nat
    decreases lines.len(),
{
    if lines.len() == 0 || line_fails(lines[0]) {
        0
    } else {
        1 + lines_before_failure(lines.drop_first())
    }
}

/// The events that the first `n` lines hold, in the order of the lines.
pub open spec fn events_among(lines: Seq<Seq<char>>, n: nat) -> Seq<EventView>
    decreases n,
{
    if n == 0 {
        Seq::empty()
    } else {
        let before = events_among(lines, (n - 1) as nat);
        match line_event(lines[n - 1]) {
            Some(Ok(event)) => before.push(event),
            _ => before,
        }
    }
}

/// What is said of a line that fails: its number and the reason.
pub open spec fn complaint_text(number: nat, why: Seq<char>) -> Seq<char> {
    "on line "@ + decimal_text(number) + ": "@ + why
}

/// What is said of line `at`, which fails; the lines are numbered from 1.
pub open spec fn line_complaint(lines: Seq<Seq<char>>, at: int) -> Seq<char> {
    complaint_text(
        (at + 1) as nat,
        match line_event(lines[at]) {
            Some(Err(why)) => why,
            _ => Seq::empty(),
        },
    )
}

/// The line that no failing line stands before, and that fails or is the
/// end of the list, is where the first failure stands.
pub proof fn lemma_lines_before_failure_is(lines: Seq<Seq<char>>, n: int)
    requires
        0 <= n <= lines.len(),
        forall|i: int| 0 <= i < n ==> !line_fails(#[trigger] lines[i]),
        n < lines.len() ==> line_fails(lines[n]),
    ensures
        lines_before_failure(lines) == n,
    decreases lines.len(),
{
    if n > 0 {
        let rest = lines.drop_first();
        assert(!line_fails(lines[0]));
        assert forall|i: int| 0 <= i < n - 1 implies !line_fails(#[trigger] rest[i]) by {
            assert(rest[i] == lines[i + 1]);
        }
        if n < lines.len() {
            assert(rest[n - 1] == lines[n]);
        }
        lemma_lines_before_failure_is(rest, n - 1);
    }
}

/// What a line holds before its comment, where that is more than white
/// space.
pub fn entry_of_line(line: &str) -> (entry: Option<&str>)
    ensures
        match entry {
            Some(text) => text@ == without_comment(line@) && trimmed(text@).len() != 0,
            None => trimmed(without_comment(line@)).len() == 0,
        },
{
    let text = match find(line, '#') {
        Some(at) => line.substring_char(0, at),
        None => line,
    };
    assert(text@ =~= without_comment(line@));
    if trim(text).is_empty() {
        None
    } else {
        Some(text)
    }
}

/// What is said of the line with the given number, which fails for the
/// reason `why`.
pub fn complaint(number: usize, why: &str) -> (text: String)
    ensures
        text@ == complaint_text(number as nat, why@),
{
    let mut text = String::from_str("on line ");
    let digits = decimal(number as u64);
    text.append(digits.as_str());
    text.append(": ");
    text.append(why);
    text
}

impl Reminders {
    /// Each event bears a name, and its date lies in the calendar and in
    /// the supported years.
    pub open spec fn wf(self) -> bool {
        forall|i: int| 0 <= i < self.events@.len() ==> (#[trigger] self.events@[i]).wf()
    }

    /// Each event's date lies in the calendar and in the supported years:
    /// what a report asks of a list.
    pub open spec fn dated(self) -> bool {
        forall|i: int| 0 <= i < self.events@.len() ==> (#[trigger] self.events@[i]).date.wf()
    }

    /// Reads the list from the lines of a text. `lines` holds the lines
    /// that were read, without their line ends, and `failure` what stopped
    /// the reading, if anything did. The first line that fails is reported
    /// with its number; where no line fails, a failure of the reading is
    /// handed on; else the events come back in the order of their lines.
    pub fn from_bufread(lines: Vec<String>, failure: Option<std::io::Error>) -> (result: Result<
        Reminders,
        Error,
    >)
        ensures
            match result {
                Ok(reminders) => {
                    &&& lines_before_failure(texts(lines@)) == lines@.len()
                    &&& failure is None
                    &&& reminders.wf()
                    &&& reminders@ == events_among(texts(lines@), lines@.len())
                },
                Err(Error::Config(why)) => {
                    &&& lines_before_failure(texts(lines@)) < lines@.len()
                    &&& why@ == line_complaint(
                        texts(lines@),
                        lines_before_failure(texts(lines@)) as int,
                    )
                },
                Err(Error::IO(e)) => {
                    &&& lines_before_failure(texts(lines@)) == lines@.len()
                    &&& failure == Some(e)
                },
            },
    {
        let ghost all = texts(lines@);
        let mut events: Vec<Event> = Vec::new();
        let mut n: usize = 0;
        while n < lines.len()
            invariant
                n <= lines@.len(),
                all == texts(lines@),
                forall|i: int| 0 <= i < n ==> !line_fails(#[trigger] all[i]),
                forall|i: int| 0 <= i < events@.len() ==> (#[trigger] events@[i]).wf(),
                Seq::new(events@.len(), |i: int| events@[i]@) == events_among(all, n as nat),
            decreases lines@.len() - n,
        {
            let line = lines[n].as_str();
            assert(all[n as int] == line@);
            let ghost before = Seq::new(events@.len(), |i: int| events@[i]@);
            if let Some(text) = entry_of_line(line) {
                match Event::from_string(String::from_str(text)) {
                    Ok(event) => {
                        events.push(event);
                        assert(Seq::new(events@.len(), |i: int| events@[i]@) =~= before.push(
                            event@,
                        ));
                    },
                    Err(why) => {
                        proof {
                            lemma_lines_before_failure_is(all, n as int);
                        }
                        return Err(Error::Config(complaint(n + 1, why.as_str())));
                    },
                }
            }
            n = n + 1;
        }
        proof {
            lemma_lines_before_failure_is(all, n as int);
        }
        match failure {
            Some(e) => Err(Error::IO(e)),
            None => {
                let reminders = Reminders { events };
                assert(reminders@ =~= events_among(all, n as nat));
                Ok(reminders)
            },
        }
    }
}

} // verus!
