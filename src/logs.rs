use vstd::prelude::*;

use crate::api::str_eq;
use crate::error::{UnicomError, UnicomErrorKind};

verus! {

/// Lines kept per application.
pub const LOG_CAP: usize = 300;

/// An event for the log sink. Times come as RFC 3339 text.
#[derive(Debug)]
pub enum LoggerMessage {
    App { app: String, value: String, err: bool, time: String },
    Unicom { context: String, value: UnicomError, time: String },
    Http { code: String, method: String, path: String, duration: String, time: String },
}

/// The last lines of output of each application.
#[derive(Debug)]
pub struct Logs {
    logs: Vec<(String, Vec<String>)>,
}

impl Logs {
    /// Application name to its lines.
    pub closed spec fn view(&self) -> Seq<(Seq<char>, Seq<Seq<char>>)> {
        self.logs@.map_values(|e: (String, Vec<String>)| (e.0@, e.1@.map_values(|l: String| l@)))
    }

    /// Names are distinct and no buffer holds more than `LOG_CAP` lines.
    pub open spec fn wf(&self) -> bool {
        &&& forall|i: int, j: int| 0 <= i < j < self@.len() ==> self@[i].0 != self@[j].0
        &&& forall|i: int| 0 <= i < self@.len() ==> (#[trigger] self@[i]).1.len() <= LOG_CAP
    }

    pub fn new() -> (r: Logs)
        ensures
            r.wf(),
            r@.len() == 0,
    {
        Logs { logs: Vec::new() }
    }

    /// The lines of application `app`, if it logged anything.
    pub fn get_log(&self, app: &str) -> (r: Option<&Vec<String>>)
        ensures
            match r {
                Some(v) => exists|i: int|
                    0 <= i < self@.len() && self@[i].0 == app@ && self@[i].1 == v@.map_values(
                        |l: String| l@,
                    ),
                None => forall|i: int| 0 <= i < self@.len() ==> self@[i].0 != app@,
            },
    {
        let mut i: usize = 0;
        while i < self.logs.len()
            invariant
                0 <= i <= self@.len(),
                forall|j: int| 0 <= j < i ==> self@[j].0 != app@,
            decreases self@.len() - i,
        {
            if str_eq(self.logs[i].0.as_str(), app) {
                proof {
                    assert(self@[i as int].1 == self.logs@[i as int].1@.map_values(|l: String| l@));
                }
                return Some(&self.logs[i].1);
            }
            i = i + 1;
        }
        None
    }

    /// Appends a line to the buffer of `app`; a full buffer drops its oldest
    /// line, so it keeps the last `LOG_CAP` lines.
    pub fn add_app_log(&mut self, app: &str, log: &str)
        requires
            old(self).wf(),
        ensures
            final(self).wf(),
            final(self)@ == add_line(old(self)@, app@, log@),
    {
        let mut i: usize = 0;
        while i < self.logs.len()
            invariant
                0 <= i <= self@.len(),
                self@ == old(self)@,
                old(self).wf(),
                forall|j: int| 0 <= j < i ==> self@[j].0 != app@,
            decreases self@.len() - i,
        {
            if str_eq(self.logs[i].0.as_str(), app) {
                let ghost before = self@;
                let ghost lg = self.logs@;
                proof {
                    lemma_index_of(before, app@, i as int);
                }
                let ghost ii = i as int;
                if self.logs[i].1.len() >= LOG_CAP {
                    self.logs[i].1.remove(0);
                }
                let ghost mid = self.logs@;
                proof {
                    assert(mid[ii].0 == lg[ii].0);
                    assert(mid[ii].1@.map_values(|l: String| l@) =~= room(before[ii].1));
                    assert forall|j: int| 0 <= j < mid.len() && j != ii implies mid[j] == lg[j] by {}
                }
                let line = log.to_owned();
                self.logs[i].1.push(line);
                proof {
                    assert(self.logs@[ii].0 == lg[ii].0);
                    assert(self@[ii].1 =~= room(before[ii].1).push(log@));
                    assert forall|j: int| 0 <= j < self@.len() && j != ii implies self@[j] == before[j] by {
                        assert(self.logs@[j] == lg[j]);
                    }
                    assert(self@ =~= before.update(ii, (app@, room(before[ii].1).push(log@))));
                }
                proof {
                    assert(self@ =~= add_line(before, app@, log@));
                }
                return;
            }
            i = i + 1;
        }
        let mut lines: Vec<String> = Vec::new();
        lines.push(log.to_owned());
        self.logs.push((app.to_owned(), lines));
        proof {
            assert(!(exists|j: int| 0 <= j < old(self)@.len() && old(self)@[j].0 == app@));
            let n = old(self)@.len() as int;
            assert(self@[n].1 =~= seq![log@]);
            assert forall|j: int| 0 <= j < n implies self@[j] == old(self)@[j] by {}
            assert(self@ =~= add_line(old(self)@, app@, log@));
        }
    }

    /// Formats an event as a line of output; an application's line is also
    /// kept in its buffer.
    pub fn new_log(&mut self, log: LoggerMessage) -> (r: String)
        requires
            old(self).wf(),
        ensures
            final(self).wf(),
            r@ == line_of(log),
            match log {
                LoggerMessage::App { app, .. } => final(self)@ == add_line(old(self)@, app@, line_of(log)),
                _ => final(self)@ == old(self)@,
            },
    {
        let ghost l = log;
        match log {
            LoggerMessage::App { app, value, err, time } => {
                let mut s = bracketed(time.as_str());
                s.append(app.as_str());
                s.append("|");
                if err {
                    s.append("[ERROR]");
                }
                s.append(value.as_str());
                self.add_app_log(app.as_str(), s.as_str());
                proof {
                    reveal_strlit("|");
                    reveal_strlit("[ERROR]");
                    assert(s@ =~= line_of(l));
                }
                s
            },
            LoggerMessage::Unicom { context, value, time } => {
                let mut s = bracketed(time.as_str());
                s.append("unicom|");
                s.append(context.as_str());
                s.append(" : ");
                let d = value.describe();
                s.append(d.as_str());
                proof {
                    assert(s@ =~= line_of(l));
                }
                s
            },
            LoggerMessage::Http { code, method, path, duration, time } => {
                let mut s = bracketed(time.as_str());
                s.append("http|[");
                s.append(code.as_str());
                s.append("]");
                s.append(method.as_str());
                s.append(" ");
                s.append(path.as_str());
                s.append(" ");
                s.append(duration.as_str());
                proof {
                    assert(s@ =~= line_of(l));
                }
                s
            },
        }
    }
}

/// Position of `app` in the buffers.
pub open spec fn index_of(logs: Seq<(Seq<char>, Seq<Seq<char>>)>, app: Seq<char>) -> Option<int> {
    if exists|i: int| 0 <= i < logs.len() && logs[i].0 == app {
        Some(choose|i: int| 0 <= i < logs.len() && logs[i].0 == app)
    } else {
        None
    }
}

/// A buffer with room for one more line: a full one loses its oldest line.
pub open spec fn room(lines: Seq<Seq<char>>) -> Seq<Seq<char>> {
    if lines.len() < LOG_CAP {
        lines
    } else {
        lines.drop_first()
    }
}

/// The buffers after a line for `app`: appended, the oldest line dropped
/// when the buffer is full; a new buffer for an application that never
/// logged.
pub open spec fn add_line(logs: Seq<(Seq<char>, Seq<Seq<char>>)>, app: Seq<char>, line: Seq<char>) -> Seq<(Seq<char>, Seq<Seq<char>>)> {
    match index_of(logs, app) {
        Some(i) => logs.update(i, (app, room(logs[i].1).push(line))),
        None => logs.push((app, seq![line])),
    }
}

proof fn lemma_index_of(logs: Seq<(Seq<char>, Seq<Seq<char>>)>, app: Seq<char>, i: int)
    requires
        0 <= i < logs.len(),
        logs[i].0 == app,
        forall|a: int, b: int| 0 <= a < b < logs.len() ==> logs[a].0 != logs[b].0,
    ensures
        index_of(logs, app) == Some(i),
{
    let k = choose|k: int| 0 <= k < logs.len() && logs[k].0 == app;
    if k != i {
        if k < i {
        } else {
        }
    }
}

/// `[time]`.
pub open spec fn stamp(time: Seq<char>) -> Seq<char> {
    seq!['['] + time + seq![']']
}

/// The output line of an event.
pub open spec fn line_of(log: LoggerMessage) -> Seq<char> {
    match log {
        LoggerMessage::App { app, value, err, time } => stamp(time@) + app@ + seq!['|'] + (if err {
            "[ERROR]"@
        } else {
            Seq::empty()
        }) + value@,
        LoggerMessage::Unicom { context, value, time } => stamp(time@) + "unicom|"@ + context@
            + " : "@ + describe_error(value),
        LoggerMessage::Http { code, method, path, duration, time } => stamp(time@) + "http|["@
            + code@ + "]"@ + method@ + " "@ + path@ + " "@ + duration@,
    }
}

fn bracketed(time: &str) -> (r: String)
    ensures
        r@ == stamp(time@),
{
    let mut s = String::from_str("[");
    s.append(time);
    s.append("]");
    proof {
        reveal_strlit("[");
        reveal_strlit("]");
        assert(s@ =~= stamp(time@));
    }
    s
}

/// The name of an error kind.
pub open spec fn kind_name(k: UnicomErrorKind) -> Seq<char> {
    match k {
        UnicomErrorKind::NotFound => "NotFound"@,
        UnicomErrorKind::ParameterInvalid => "ParameterInvalid"@,
        UnicomErrorKind::InputInvalid => "InputInvalid"@,
        UnicomErrorKind::NotAllowed => "NotAllowed"@,
        UnicomErrorKind::Timeout => "Timeout"@,
        UnicomErrorKind::Empty => "Empty"@,
        UnicomErrorKind::Internal => "Internal"@,
        UnicomErrorKind::Io => "Io"@,
        UnicomErrorKind::Encoding => "Encoding"@,
    }
}

/// `kind: message`.
pub open spec fn describe_error(e: UnicomError) -> Seq<char> {
    kind_name(e.kind) + ": "@ + e.message@
}

impl UnicomError {
    /// The error as text: its kind's name, then its message.
    pub fn describe(&self) -> (r: String)
        ensures
            r@ == describe_error(*self),
    {
        let mut s = match self.kind {
            UnicomErrorKind::NotFound => String::from_str("NotFound"),
            UnicomErrorKind::ParameterInvalid => String::from_str("ParameterInvalid"),
            UnicomErrorKind::InputInvalid => String::from_str("InputInvalid"),
            UnicomErrorKind::NotAllowed => String::from_str("NotAllowed"),
            UnicomErrorKind::Timeout => String::from_str("Timeout"),
            UnicomErrorKind::Empty => String::from_str("Empty"),
            UnicomErrorKind::Internal => String::from_str("Internal"),
            UnicomErrorKind::Io => String::from_str("Io"),
            UnicomErrorKind::Encoding => String::from_str("Encoding"),
        };
        s.append(": ");
        s.append(self.message.as_str());
        s
    }
}

/// No buffer ever holds more than `LOG_CAP` lines: adding a line keeps the
/// cap.
pub proof fn lemma_log_cap(logs: Seq<(Seq<char>, Seq<Seq<char>>)>, app: Seq<char>, line: Seq<char>)
    requires
        forall|i: int| 0 <= i < logs.len() ==> (#[trigger] logs[i]).1.len() <= LOG_CAP,
    ensures
        forall|i: int|
            0 <= i < add_line(logs, app, line).len() ==> (#[trigger] add_line(logs, app, line)[i]).1.len()
                <= LOG_CAP,
{
}

} // verus!
