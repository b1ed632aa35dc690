//! A log of events, each stamped with the time at which it was recorded.

use vstd::prelude::*;

verus! {

/// The number of entries that the bounded log keeps.
pub const MAX_LOGS: usize = 32;

/// One log entry: the time stamp, a bar, the event.
pub open spec fn entry(stamp: Seq<char>, event: Seq<char>) -> Seq<char> {
    stamp + seq!['|'] + event
}

/// The log after an entry is added without bound.
pub open spec fn appended(log: Seq<Seq<char>>, stamp: Seq<char>, event: Seq<char>) -> Seq<
    Seq<char>,
> {
    log.push(entry(stamp, event))
}

/// The log after an entry is added to the bounded log: where that makes
/// more entries than the log keeps, the oldest one goes.
pub open spec fn recorded(log: Seq<Seq<char>>, stamp: Seq<char>, event: Seq<char>) -> Seq<
    Seq<char>,
> {
    let longer = log.push(entry(stamp, event));
    if longer.len() > MAX_LOGS {
        longer.remove(0)
    } else {
        longer
    }
}

/// The entries of a list, each as its text.
pub open spec fn texts(entries: Seq<String>) -> Seq<Seq<char>> {
    Seq::new(entries.len(), |i: int| entries[i]@)
}

/// The current time in UTC, written as year, month, day, hour, minute and
/// second, by `chrono::Utc::now` and `DateTime::format`. Nothing is claimed
/// of the text: it depends on the clock. `Utc::now` takes the clock to be
/// past the start of 1970.
#[verifier::external_body]
fn timestamp_now() -> (stamp: String) {
    chrono::Utc::now().format("%Y-%m-%d %H:%M:%S").to_string()
}

fn make_entry(stamp: &str, event: &str) -> (e: String)
    ensures
        e@ == entry(stamp@, event@),
{
    let mut e = String::from_str(stamp);
    proof {
        reveal_strlit("|");
        assert("|"@ =~= seq!['|']);
    }
    e.append("|");
    e.append(event);
    e
}

pub struct CustomLogger {
    events: Vec<String>,
}

impl View for CustomLogger {
    type V = Seq<Seq<char>>;

    closed spec fn view(&self) -> Seq<Seq<char>> {
        texts(self.events@)
    }
}

impl CustomLogger {
    /// An empty log.
    pub fn new() -> (logger: CustomLogger)
        ensures
            logger@ == Seq::<Seq<char>>::empty(),
    {
        let logger = CustomLogger { events: Vec::new() };
        assert(logger@ =~= Seq::<Seq<char>>::empty());
        logger
    }

    /// Adds the event under the given time stamp, without bound.
    pub fn append(&mut self, stamp: &str, event: &str)
        ensures
            final(self)@ == appended(old(self)@, stamp@, event@),
    {
        self.events.push(make_entry(stamp, event));
        assert(self@ =~= appended(old(self)@, stamp@, event@));
    }

    /// Adds the event under the given time stamp to the bounded log.
    pub fn record(&mut self, stamp: &str, event: &str)
        ensures
            final(self)@ == recorded(old(self)@, stamp@, event@),
    {
        self.events.push(make_entry(stamp, event));
        if self.events.len() > MAX_LOGS {
            self.events.remove(0);
        }
        assert(self@ =~= recorded(old(self)@, stamp@, event@));
    }

    /// Adds the event under the current time, without bound.
    pub fn log2(&mut self, event: &str)
        ensures
            exists|stamp: Seq<char>| final(self)@ == appended(old(self)@, stamp, event@),
    {
        let stamp = timestamp_now();
        self.append(stamp.as_str(), event);
    }

    /// Adds the event under the current time to the bounded log.
    pub fn log(&mut self, event: &str)
        ensures
            exists|stamp: Seq<char>| final(self)@ == recorded(old(self)@, stamp, event@),
    {
        let stamp = timestamp_now();
        self.record(stamp.as_str(), event);
    }

    /// The entries, oldest first.
    pub fn get_logs(&self) -> (logs: &Vec<String>)
        ensures
            texts(logs@) == self@,
    {
        &self.events
    }

    /// The entries, oldest first.
    pub fn get_logs2(&self) -> (logs: &Vec<String>)
        ensures
            texts(logs@) == self@,
    {
        &self.events
    }

    /// A copy of the entries, oldest first.
    pub fn get_logs_c(&self) -> (logs: Vec<String>)
        ensures
            texts(logs@) == self@,
    {
        let mut logs: Vec<String> = Vec::new();
        let mut i: usize = 0;
        while i < self.events.len()
            invariant
                i <= self.events.len(),
                logs@.len() == i,
                forall|k: int| 0 <= k < i ==> logs@[k]@ == self.events@[k]@,
            decreases self.events.len() - i,
        {
            logs.push(self.events[i].clone());
            i += 1;
        }
        assert(texts(logs@) =~= self@);
        logs
    }

    /// Empties the log.
    pub fn clear_logs(&mut self)
        ensures
            final(self)@ == Seq::<Seq<char>>::empty(),
    {
        self.events.clear();
        assert(self@ =~= Seq::<Seq<char>>::empty());
    }
}

/// The bounded log never holds more entries than it keeps, once it holds no
/// more than that.
pub proof fn lemma_log_stays_bounded(log: Seq<Seq<char>>, stamp: Seq<char>, event: Seq<char>)
    requires
        log.len() <= MAX_LOGS,
    ensures
        recorded(log, stamp, event).len() <= MAX_LOGS,
        recorded(log, stamp, event).last() == entry(stamp, event),
{
}

} // verus!
