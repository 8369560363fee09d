//! A limit on the number of transfers that run at the same time.

use vstd::prelude::*;

verus! {

/// What is to be done next.
#[derive(Clone, Copy, Debug, PartialEq, Eq, Structural)]
pub enum Action {
    /// Ask for the next job.
    Receive,
    /// Start the job that is waiting.
    Start,
    /// Wait for a running job to end.
    Join,
    /// All jobs have ended, and no more will come.
    Done,
}

/// What happened.
#[derive(Clone, Copy, Debug, PartialEq, Eq, Structural)]
pub enum Event {
    /// A job was received.
    Received,
    /// There are no more jobs.
    Closed,
    /// The waiting job was started.
    Started,
    /// A running job ended.
    Joined,
}

/// How many jobs may run, how many do, whether one is waiting to be started, and whether more
/// may come.
#[derive(Clone, Copy, Debug, PartialEq, Eq, Structural)]
pub struct Pool {
    limit: usize,
    running: usize,
    waiting: bool,
    closed: bool,
}

/// The state of a pool.
pub struct PoolView {
    pub limit: nat,
    pub running: nat,
    pub waiting: bool,
    pub closed: bool,
}

impl View for Pool {
    type V = PoolView;

    closed spec fn view(&self) -> PoolView {
        PoolView {
            limit: self.limit as nat,
            running: self.running as nat,
            waiting: self.waiting,
            closed: self.closed,
        }
    }
}

impl PoolView {
    /// A pool in which nothing has happened.
    pub open spec fn empty(limit: nat) -> PoolView {
        PoolView { limit, running: 0, waiting: false, closed: false }
    }

    /// What is to be done next.
    pub open spec fn action(self) -> Action {
        if self.waiting {
            if self.running >= self.limit {
                Action::Join
            } else {
                Action::Start
            }
        } else if !self.closed {
            Action::Receive
        } else if self.running > 0 {
            Action::Join
        } else {
            Action::Done
        }
    }

    /// Whether an event can follow from what is to be done next.
    pub open spec fn expects(self, event: Event) -> bool {
        match self.action() {
            Action::Receive => event == Event::Received || event == Event::Closed,
            Action::Start => event == Event::Started,
            Action::Join => event == Event::Joined,
            Action::Done => false,
        }
    }

    /// The state after an event.
    pub open spec fn after(self, event: Event) -> PoolView {
        match event {
            Event::Received => PoolView { waiting: true, ..self },
            Event::Closed => PoolView { closed: true, ..self },
            Event::Started => PoolView { waiting: false, running: self.running + 1, ..self },
            Event::Joined => PoolView { running: (self.running - 1) as nat, ..self },
        }
    }
}

impl Pool {
    /// Some job may run, and no more run than may.
    #[verifier::type_invariant]
    spec fn is_within_limit(self) -> bool {
        0 < self.limit && self.running <= self.limit
    }

    /// A pool in which so many jobs may run at the same time.
    pub fn new(limit: usize) -> (res: Self)
        requires
            limit > 0,
        ensures
            res@ == PoolView::empty(limit as nat),
            res@.limit == limit,
            res@.running == 0,
            !res@.waiting,
            !res@.closed,
    {
        Pool { limit, running: 0, waiting: false, closed: false }
    }

    /// Decide what to do next.
    pub fn next(&self) -> (res: Action)
        ensures
            res == self@.action(),
    {
        if self.waiting {
            if self.running >= self.limit {
                Action::Join
            } else {
                Action::Start
            }
        } else if !self.closed {
            Action::Receive
        } else if self.running > 0 {
            Action::Join
        } else {
            Action::Done
        }
    }

    /// Take note of what happened.
    pub fn note(self, event: Event) -> (res: Self)
        requires
            self@.expects(event),
        ensures
            res@ == self@.after(event),
    {
        proof {
            use_type_invariant(&self);
        }
        match event {
            Event::Received => Pool { waiting: true, ..self },
            Event::Closed => Pool { closed: true, ..self },
            Event::Started => Pool { waiting: false, running: self.running + 1, ..self },
            Event::Joined => Pool { running: self.running - 1, ..self },
        }
    }
}

/// The state after a sequence of events, or `None` if one of them could not follow.
pub open spec fn run(limit: nat, events: Seq<Event>) -> Option<PoolView>
    decreases events.len(),
{
    if events.len() == 0 {
        Some(PoolView::empty(limit))
    } else {
        match run(limit, events.drop_last()) {
            Some(pool) => if pool.expects(events.last()) {
                Some(pool.after(events.last()))
            } else {
                None
            },
            None => None,
        }
    }
}

/// How often an event occurs.
pub open spec fn count(events: Seq<Event>, event: Event) -> nat
    decreases events.len(),
{
    if events.len() == 0 {
        0
    } else {
        count(events.drop_last(), event) + if events.last() == event {
            1nat
        } else {
            0nat
        }
    }
}

proof fn lemma_run(limit: nat, events: Seq<Event>)
    requires
        limit > 0,
        run(limit, events) is Some,
    ensures
        ({
            let pool = run(limit, events)->0;
            &&& pool.limit == limit
            &&& pool.running <= limit
            &&& pool.running == count(events, Event::Started) - count(events, Event::Joined)
            &&& count(events, Event::Received) - count(events, Event::Started) == (if pool.waiting {
                1int
            } else {
                0
            })
        }),
    decreases events.len(),
{
    if events.len() > 0 {
        lemma_run(limit, events.drop_last());
    }
}

/// Whatever happens, no more jobs run at the same time than the limit allows.
pub proof fn law_limit_is_kept(limit: nat, events: Seq<Event>)
    requires
        limit > 0,
        run(limit, events) is Some,
    ensures
        run(limit, events)->0.running <= limit,
        count(events, Event::Started) - count(events, Event::Joined) <= limit,
{
    lemma_run(limit, events);
}

/// When all is done, every job that was received was started, and every job that was started
/// has ended.
pub proof fn law_done_means_all_jobs_ended(limit: nat, events: Seq<Event>)
    requires
        limit > 0,
        run(limit, events) is Some,
        run(limit, events)->0.action() == Action::Done,
    ensures
        count(events, Event::Received) == count(events, Event::Started),
        count(events, Event::Started) == count(events, Event::Joined),
{
    lemma_run(limit, events);
}

/// A waiting job is started as soon as fewer jobs run than may, and not before. While no job waits,
/// the next one is asked for until there are no more, and then the running jobs are waited for.
pub proof fn law_no_job_waits_needlessly(pool: PoolView)
    ensures
        pool.action() == Action::Start <==> pool.waiting && pool.running < pool.limit,
        pool.action() == Action::Receive <==> !pool.waiting && !pool.closed,
        pool.action() == Action::Done <==> !pool.waiting && pool.closed && pool.running == 0,
        pool.waiting && pool.running >= pool.limit ==> pool.action() == Action::Join,
        !pool.waiting && pool.closed && pool.running > 0 ==> pool.action() == Action::Join,
{
}

/// Each action is followed by the events that belong to it: a job that is asked for comes or there
/// are no more, a job that is to be started starts, one that is waited for ends.
pub proof fn law_events_follow_actions(pool: PoolView, event: Event)
    ensures
        pool.expects(event) <==> match event {
            Event::Received => pool.action() == Action::Receive,
            Event::Closed => pool.action() == Action::Receive,
            Event::Started => pool.action() == Action::Start,
            Event::Joined => pool.action() == Action::Join,
        },
{
}

/// An event changes what it is about and nothing else: a received job waits, a started one runs
/// and no longer waits, an ended one no longer runs, and after the last job nothing more comes.
pub proof fn law_events_change_their_part(pool: PoolView, event: Event)
    requires
        pool.limit > 0,
        pool.expects(event),
    ensures
        pool.after(event).limit == pool.limit,
        pool.after(event).closed == (pool.closed || event == Event::Closed),
        pool.after(event).waiting == (event == Event::Received || (pool.waiting && event
            != Event::Started)),
        pool.after(event).running == pool.running + (if event == Event::Started {
            1int
        } else if event == Event::Joined {
            -1int
        } else {
            0int
        }),
{
}

} // verus!
