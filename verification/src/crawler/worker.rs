//! The decisions of one crawler worker, as a state machine. The worker does
//! no I/O itself: each step takes the outcome of the previous action (an
//! `Event`) and says what to do next (an `Action`); the program around it
//! performs the action and hands back its outcome.
use vstd::prelude::*;

use crate::index::tokenizer::{long_words, lowercase_words, tokenizer};
use crate::parser::html::{
    anchor_hrefs, description_contents, extract_links, extract_metadata, extract_text, joined,
    links_from, page_description, page_links, page_text, page_title, text_nodes, titles,
};
use crate::parser::robots::{blocks, is_blocked};
use crate::storage::mongo_db::{Page, PageRecord};
use crate::utils::url_utils::{domain_of, get_domain, get_path, path_of};

verus! {

/// Empty polls of the queue in a row after which a worker stops.
pub const MAX_EMPTY_POLLS: u32 = 10;

/// How long a worker waits after finding the queue empty.
pub const EMPTY_QUEUE_WAIT_MS: u64 = 500;

/// Least time between two visits of one domain.
pub const DOMAIN_DELAY_MS: u64 = 1000;

/// How long a worker waits before asking again for a busy domain.
pub const DOMAIN_RETRY_MS: u64 = 100;

/// Fetch attempts per URL before it is given up.
pub const MAX_FETCH_ATTEMPTS: u32 = 3;

/// Where a worker stands: what it has asked for and waits to hear about.
#[derive(Clone, Copy, Debug)]
pub enum Phase {
    Idle,
    Popping,
    WaitingForQueue,
    CheckingVisited,
    CheckingCount,
    Announcing,
    Claiming,
    WaitingForDomain,
    LoadingRobots,
    ReportingBlocked,
    Fetching,
    ReportingFailure,
    Storing,
    Reserving,
    Marking,
    Indexing,
    Saving,
    Linking,
    Offering,
    Queueing,
    Stopped,
}

/// What a worker reports about a URL.
#[derive(Clone, Copy, Debug)]
pub enum NoticeKind {
    /// The URL is about to be crawled.
    Crawling,
    /// robots.txt forbids the URL.
    Blocked,
    /// Every fetch attempt of the URL failed.
    Failed,
}

/// What the worker asks the program around it to do next.
pub enum Action {
    /// Take the next URL off the shared queue; answer `Popped`.
    PopUrl,
    /// Wait this many milliseconds; answer `Done`.
    Sleep(u64),
    /// Whether the URL was visited already; answer `Visited`.
    CheckVisited(String),
    /// Read the number of pages crawled so far; answer `PageCount`.
    ReadPageCount,
    /// Report a notice about a URL; answer `Done`.
    Announce(NoticeKind, String),
    /// Claim the domain for a visit if it has not been visited in the last
    /// `DOMAIN_DELAY_MS` (see `DomainClock::claim`); answer `DomainClaimed`.
    ClaimDomain(String),
    /// The robots.txt rules of the domain; answer `Robots`.
    LoadRobots(String),
    /// Fetch the page at the URL; answer `Fetched`.
    Fetch(String),
    /// Store the page record; answer `Done`.
    InsertPage(Page),
    /// Reserve a slot in the page count (see `PageCounter::reserve`); answer `SlotReserved`.
    ReserveSlot,
    /// Mark the URL visited; answer `Done`.
    MarkVisited(String),
    /// Index the terms of the page at the URL; answer `Done`.
    AddDocument(String, Vec<String>),
    /// Save the page body under the page id; answer `Done`.
    SavePage(String, usize),
    /// Record the links of the page at the URL; answer `Done`.
    AddLinks(String, Vec<String>),
    /// Mark the URL seen if it was not; answer `Added` (whether it was new).
    AddIfNotSeen(String),
    /// Put the URL on the shared queue; answer `Done`.
    PushUrl(String),
    /// The worker has finished.
    Stop,
}

/// The outcome of the previous action.
pub enum Event {
    Start,
    Done,
    Popped(Option<String>),
    Visited(bool),
    PageCount(usize),
    DomainClaimed(bool),
    Robots(Vec<String>),
    Fetched(Option<String>),
    SlotReserved(Option<usize>),
    Added(bool),
}

/// The state of a worker.
pub struct Worker {
    phase: Phase,
    max_pages: usize,
    empty_polls: u32,
    url: String,
    domain: String,
    path: String,
    rules: Vec<String>,
    attempts: u32,
    body: String,
    page_id: usize,
    links: Vec<String>,
    next_link: usize,
}

/// The contents of an `Action`.
pub enum ActionModel {
    PopUrl,
    Sleep(nat),
    CheckVisited(Seq<char>),
    ReadPageCount,
    Announce(NoticeKind, Seq<char>),
    ClaimDomain(Seq<char>),
    LoadRobots(Seq<char>),
    Fetch(Seq<char>),
    InsertPage(PageRecord),
    ReserveSlot,
    MarkVisited(Seq<char>),
    AddDocument(Seq<char>, Seq<Seq<char>>),
    SavePage(Seq<char>, nat),
    AddLinks(Seq<char>, Seq<Seq<char>>),
    AddIfNotSeen(Seq<char>),
    PushUrl(Seq<char>),
    Stop,
}

/// The contents of an `Event`.
pub enum EventModel {
    Start,
    Done,
    Popped(Option<Seq<char>>),
    Visited(bool),
    PageCount(nat),
    DomainClaimed(bool),
    Robots(Seq<Seq<char>>),
    Fetched(Option<Seq<char>>),
    SlotReserved(Option<nat>),
    Added(bool),
}

/// The contents of a `Worker`.
pub struct WorkerModel {
    pub phase: Phase,
    pub max_pages: nat,
    pub empty_polls: nat,
    pub url: Seq<char>,
    pub domain: Seq<char>,
    pub path: Seq<char>,
    pub rules: Seq<Seq<char>>,
    pub attempts: nat,
    pub body: Seq<char>,
    pub page_id: nat,
    pub links: Seq<Seq<char>>,
    pub next_link: nat,
}

impl View for Action {
    type V = ActionModel;

    open spec fn view(&self) -> ActionModel {
        match self {
            Action::PopUrl => ActionModel::PopUrl,
            Action::Sleep(ms) => ActionModel::Sleep(*ms as nat),
            Action::CheckVisited(u) => ActionModel::CheckVisited(u@),
            Action::ReadPageCount => ActionModel::ReadPageCount,
            Action::Announce(k, u) => ActionModel::Announce(*k, u@),
            Action::ClaimDomain(d) => ActionModel::ClaimDomain(d@),
            Action::LoadRobots(d) => ActionModel::LoadRobots(d@),
            Action::Fetch(u) => ActionModel::Fetch(u@),
            Action::InsertPage(p) => ActionModel::InsertPage(p@),
            Action::ReserveSlot => ActionModel::ReserveSlot,
            Action::MarkVisited(u) => ActionModel::MarkVisited(u@),
            Action::AddDocument(u, ws) => ActionModel::AddDocument(u@, ws.deep_view()),
            Action::SavePage(b, id) => ActionModel::SavePage(b@, *id as nat),
            Action::AddLinks(u, ls) => ActionModel::AddLinks(u@, ls.deep_view()),
            Action::AddIfNotSeen(u) => ActionModel::AddIfNotSeen(u@),
            Action::PushUrl(u) => ActionModel::PushUrl(u@),
            Action::Stop => ActionModel::Stop,
        }
    }
}

impl View for Event {
    type V = EventModel;

    open spec fn view(&self) -> EventModel {
        match self {
            Event::Start => EventModel::Start,
            Event::Done => EventModel::Done,
            Event::Popped(u) => EventModel::Popped(u.deep_view()),
            Event::Visited(b) => EventModel::Visited(*b),
            Event::PageCount(c) => EventModel::PageCount(*c as nat),
            Event::DomainClaimed(b) => EventModel::DomainClaimed(*b),
            Event::Robots(rs) => EventModel::Robots(rs.deep_view()),
            Event::Fetched(b) => EventModel::Fetched(b.deep_view()),
            Event::SlotReserved(id) => EventModel::SlotReserved(
                match id {
                    Some(i) => Some(*i as nat),
                    None => None,
                },
            ),
            Event::Added(b) => EventModel::Added(*b),
        }
    }
}

impl View for Worker {
    type V = WorkerModel;

    closed spec fn view(&self) -> WorkerModel {
        WorkerModel {
            phase: self.phase,
            max_pages: self.max_pages as nat,
            empty_polls: self.empty_polls as nat,
            url: self.url@,
            domain: self.domain@,
            path: self.path@,
            rules: self.rules.deep_view(),
            attempts: self.attempts as nat,
            body: self.body@,
            page_id: self.page_id as nat,
            links: self.links.deep_view(),
            next_link: self.next_link as nat,
        }
    }
}

/// Whether a worker in `phase` can take event `e`: each phase waits for the
/// outcome of the action that led to it; a stopped worker takes any event.
pub open spec fn expects(phase: Phase, e: EventModel) -> bool {
    match phase {
        Phase::Idle => e is Start,
        Phase::Popping => e is Popped,
        Phase::CheckingVisited => e is Visited,
        Phase::CheckingCount => e is PageCount,
        Phase::Claiming => e is DomainClaimed,
        Phase::LoadingRobots => e is Robots,
        Phase::Fetching => e is Fetched,
        Phase::Reserving => e is SlotReserved,
        Phase::Offering => e is Added,
        Phase::Stopped => true,
        _ => e is Done,
    }
}

/// The record stored for the page at `url` with HTML `body`.
pub open spec fn page_record(url: Seq<char>, body: Seq<char>) -> PageRecord {
    PageRecord {
        url,
        title: page_title(body),
        description: page_description(body),
        content: page_text(body),
    }
}

/// The terms indexed for the page with HTML `body`.
pub open spec fn page_terms(body: Seq<char>) -> Seq<Seq<char>> {
    long_words(lowercase_words(page_text(body)))
}

/// Go back to the queue for the next URL.
pub open spec fn to_queue(w: WorkerModel) -> (WorkerModel, ActionModel) {
    (WorkerModel { phase: Phase::Popping, ..w }, ActionModel::PopUrl)
}

/// Offer the `i`th link of the page to the queue, or go back to the queue
/// once every link has been offered.
pub open spec fn offer(w: WorkerModel, i: nat) -> (WorkerModel, ActionModel) {
    if i < w.links.len() {
        (WorkerModel { phase: Phase::Offering, next_link: i, ..w }, ActionModel::AddIfNotSeen(w.links[i as int]))
    } else {
        to_queue(w)
    }
}

/// Stop for good.
pub open spec fn to_stop(w: WorkerModel) -> (WorkerModel, ActionModel) {
    (WorkerModel { phase: Phase::Stopped, ..w }, ActionModel::Stop)
}

/// The next state of a worker in state `w` on event `e`, and what it asks for.
pub open spec fn next(w: WorkerModel, e: EventModel) -> (WorkerModel, ActionModel) {
    match (w.phase, e) {
        (Phase::Idle, _) => to_queue(w),
        (Phase::Popping, EventModel::Popped(Some(u))) => (
            WorkerModel { phase: Phase::CheckingVisited, empty_polls: 0, url: u, ..w },
            ActionModel::CheckVisited(u),
        ),
        (Phase::Popping, _) => {
            let polls = w.empty_polls + 1;
            if polls >= MAX_EMPTY_POLLS {
                to_stop(WorkerModel { empty_polls: polls, ..w })
            } else {
                (
                    WorkerModel { phase: Phase::WaitingForQueue, empty_polls: polls, ..w },
                    ActionModel::Sleep(EMPTY_QUEUE_WAIT_MS as nat),
                )
            }
        },
        (Phase::WaitingForQueue, _) => to_queue(w),
        (Phase::CheckingVisited, EventModel::Visited(true)) => to_queue(w),
        (Phase::CheckingVisited, _) => (
            WorkerModel { phase: Phase::CheckingCount, ..w },
            ActionModel::ReadPageCount,
        ),
        (Phase::CheckingCount, EventModel::PageCount(c)) => {
            if c >= w.max_pages {
                to_stop(w)
            } else {
                match domain_of(w.url) {
                    Some(d) => (
                        WorkerModel { phase: Phase::Announcing, domain: d, ..w },
                        ActionModel::Announce(NoticeKind::Crawling, w.url),
                    ),
                    None => to_queue(w),
                }
            }
        },
        (Phase::CheckingCount, _) => to_queue(w),
        (Phase::Announcing, _) => (
            WorkerModel { phase: Phase::Claiming, ..w },
            ActionModel::ClaimDomain(w.domain),
        ),
        (Phase::Claiming, EventModel::DomainClaimed(true)) => match path_of(w.url) {
            Some(p) => (
                WorkerModel { phase: Phase::LoadingRobots, path: p, ..w },
                ActionModel::LoadRobots(w.domain),
            ),
            None => to_queue(w),
        },
        (Phase::Claiming, _) => (
            WorkerModel { phase: Phase::WaitingForDomain, ..w },
            ActionModel::Sleep(DOMAIN_RETRY_MS as nat),
        ),
        (Phase::WaitingForDomain, _) => (
            WorkerModel { phase: Phase::Claiming, ..w },
            ActionModel::ClaimDomain(w.domain),
        ),
        (Phase::LoadingRobots, EventModel::Robots(rules)) => {
            if blocks(rules, w.path) {
                (
                    WorkerModel { phase: Phase::ReportingBlocked, rules, ..w },
                    ActionModel::Announce(NoticeKind::Blocked, w.url),
                )
            } else {
                (
                    WorkerModel { phase: Phase::Fetching, rules, attempts: 0, ..w },
                    ActionModel::Fetch(w.url),
                )
            }
        },
        (Phase::LoadingRobots, _) => to_queue(w),
        (Phase::ReportingBlocked, _) => to_queue(w),
        (Phase::Fetching, EventModel::Fetched(Some(b))) => (
            WorkerModel { phase: Phase::Storing, body: b, ..w },
            ActionModel::InsertPage(page_record(w.url, b)),
        ),
        (Phase::Fetching, _) => {
            let tried = w.attempts + 1;
            if tried >= MAX_FETCH_ATTEMPTS {
                (
                    WorkerModel { phase: Phase::ReportingFailure, attempts: tried, ..w },
                    ActionModel::Announce(NoticeKind::Failed, w.url),
                )
            } else {
                (WorkerModel { attempts: tried, ..w }, ActionModel::Fetch(w.url))
            }
        },
        (Phase::ReportingFailure, _) => to_queue(w),
        (Phase::Storing, _) => (
            WorkerModel { phase: Phase::Reserving, ..w },
            ActionModel::ReserveSlot,
        ),
        (Phase::Reserving, EventModel::SlotReserved(Some(id))) => (
            WorkerModel { phase: Phase::Marking, page_id: id, ..w },
            ActionModel::MarkVisited(w.url),
        ),
        (Phase::Reserving, _) => to_stop(w),
        (Phase::Marking, _) => (
            WorkerModel { phase: Phase::Indexing, ..w },
            ActionModel::AddDocument(w.url, page_terms(w.body)),
        ),
        (Phase::Indexing, _) => (
            WorkerModel { phase: Phase::Saving, ..w },
            ActionModel::SavePage(w.body, w.page_id),
        ),
        (Phase::Saving, _) => {
            let ls = page_links(w.url, w.body);
            (WorkerModel { phase: Phase::Linking, links: ls, ..w }, ActionModel::AddLinks(w.url, ls))
        },
        (Phase::Linking, _) => offer(w, 0),
        (Phase::Offering, EventModel::Added(true)) => (
            WorkerModel { phase: Phase::Queueing, ..w },
            ActionModel::PushUrl(w.links[w.next_link as int]),
        ),
        (Phase::Offering, _) => offer(w, w.next_link + 1),
        (Phase::Queueing, _) => offer(w, w.next_link + 1),
        (Phase::Stopped, _) => to_stop(w),
    }
}

/// The phases in which the worker crawls a URL whose domain it has found.
pub open spec fn has_domain(p: Phase) -> bool {
    match p {
        Phase::Announcing | Phase::Claiming | Phase::WaitingForDomain => true,
        _ => after_claim(p),
    }
}

/// The phases that follow a successful claim of the URL's domain.
pub open spec fn after_claim(p: Phase) -> bool {
    match p {
        Phase::LoadingRobots | Phase::ReportingBlocked => true,
        _ => after_robots(p),
    }
}

/// The phases that follow a robots check that allowed the URL.
pub open spec fn after_robots(p: Phase) -> bool {
    match p {
        Phase::Fetching | Phase::ReportingFailure | Phase::Storing | Phase::Reserving
        | Phase::Marking | Phase::Indexing | Phase::Saving | Phase::Linking | Phase::Offering
        | Phase::Queueing => true,
        _ => false,
    }
}

/// What every reachable state of a worker satisfies: the bounds on polls,
/// attempts and links; the stored domain and path are those of the URL being
/// crawled; the stored robots rules allow that path once it is fetched, and
/// forbid it when it is reported blocked.
pub open spec fn worker_inv(w: WorkerModel) -> bool {
    &&& w.empty_polls < MAX_EMPTY_POLLS || w.phase is Stopped
    &&& w.phase is Fetching ==> w.attempts < MAX_FETCH_ATTEMPTS
    &&& (w.phase is Offering || w.phase is Queueing) ==> w.next_link < w.links.len()
    &&& has_domain(w.phase) ==> domain_of(w.url) == Some(w.domain)
    &&& after_claim(w.phase) ==> path_of(w.url) == Some(w.path)
    &&& after_robots(w.phase) ==> !blocks(w.rules, w.path)
    &&& w.phase is ReportingBlocked ==> blocks(w.rules, w.path)
}

/// Whether a domain last visited `elapsed_ms` milliseconds ago (`None`: never)
/// may be visited now.
pub open spec fn domain_free(elapsed_ms: Option<nat>) -> bool {
    match elapsed_ms {
        Some(e) => e >= DOMAIN_DELAY_MS,
        None => true,
    }
}

/// Whether a domain last visited `elapsed_ms` milliseconds ago (`None`: never)
/// may be visited now: at least `DOMAIN_DELAY_MS` must have passed.
pub fn domain_ready(elapsed_ms: Option<u64>) -> (r: bool)
    ensures
        r == domain_free(
            match elapsed_ms {
                Some(e) => Some(e as nat),
                None => None,
            },
        ),
{
    match elapsed_ms {
        Some(e) => e >= DOMAIN_DELAY_MS,
        None => true,
    }
}

/// Reserves a page slot when `count` pages of at most `max_pages` are done:
/// `None` where none is left, else the new count, which is the page's id.
pub fn reserve_slot(count: usize, max_pages: usize) -> (r: Option<usize>)
    ensures
        count >= max_pages ==> r is None,
        count < max_pages ==> r == Some((count + 1) as usize),
{
    if count >= max_pages {
        None
    } else {
        Some(count + 1)
    }
}

/// The page count once a reservation at count `count` (limit `max_pages`)
/// has been made: one more where a slot was left, else unchanged.
pub open spec fn count_after_slot(count: nat, max_pages: nat) -> nat {
    if count < max_pages {
        count + 1
    } else {
        count
    }
}

/// The page count after `n` reservations, one after the other, from `count`.
pub open spec fn count_after(count: nat, max_pages: nat, n: nat) -> nat
    decreases n,
{
    if n == 0 {
        count
    } else {
        count_after_slot(count_after(count, max_pages, (n - 1) as nat), max_pages)
    }
}

/// A reservation by `reserve_slot` moves the count as `count_after_slot` says.
pub proof fn lemma_reserve_slot_step(count: usize, max_pages: usize, r: Option<usize>)
    requires
        count >= max_pages ==> r is None,
        count < max_pages ==> r == Some((count + 1) as usize),
    ensures
        count_after_slot(count as nat, max_pages as nat) == match r {
            Some(c) => c as nat,
            None => count as nat,
        },
{
}

/// From a count within the limit, any number of reservations keeps the count
/// within the limit; it never falls, and it grows by one per slot granted,
/// until the limit.
pub proof fn lemma_count_bounded(count: nat, max_pages: nat, n: nat)
    requires
        count <= max_pages,
    ensures
        count <= count_after(count, max_pages, n) <= max_pages,
        count_after(count, max_pages, n) == if count + n <= max_pages {
            count + n
        } else {
            max_pages
        },
    decreases n,
{
    if n > 0 {
        lemma_count_bounded(count, max_pages, (n - 1) as nat);
    }
}

impl Worker {
    /// A worker that will stop once `max_pages` pages are done.
    pub fn new(max_pages: usize) -> (w: Self)
        ensures
            w@ == (WorkerModel {
                phase: Phase::Idle,
                max_pages: max_pages as nat,
                empty_polls: 0,
                url: Seq::empty(),
                domain: Seq::empty(),
                path: Seq::empty(),
                rules: Seq::empty(),
                attempts: 0,
                body: Seq::empty(),
                page_id: 0,
                links: Seq::empty(),
                next_link: 0,
            }),
            worker_inv(w@),
    {
        let w = Worker {
            phase: Phase::Idle,
            max_pages,
            empty_polls: 0,
            url: String::new(),
            domain: String::new(),
            path: String::new(),
            rules: Vec::new(),
            attempts: 0,
            body: String::new(),
            page_id: 0,
            links: Vec::new(),
            next_link: 0,
        };
        assert(w.links.deep_view() =~= Seq::<Seq<char>>::empty());
        assert(w.rules.deep_view() =~= Seq::<Seq<char>>::empty());
        w
    }

    /// Where the worker stands.
    pub fn phase(&self) -> (p: Phase)
        ensures
            p == self@.phase,
    {
        self.phase
    }

    fn go_to_queue(&mut self) -> (a: Action)
        ensures
            (final(self)@, a@) == to_queue(old(self)@),
    {
        self.phase = Phase::Popping;
        Action::PopUrl
    }

    fn go_stop(&mut self) -> (a: Action)
        ensures
            (final(self)@, a@) == to_stop(old(self)@),
    {
        self.phase = Phase::Stopped;
        Action::Stop
    }

    fn offer_link(&mut self, i: usize) -> (a: Action)
        ensures
            (final(self)@, a@) == offer(old(self)@, i as nat),
    {
        if i < self.links.len() {
            self.phase = Phase::Offering;
            self.next_link = i;
            Action::AddIfNotSeen(self.links[i].clone())
        } else {
            self.go_to_queue()
        }
    }

    /// Takes the outcome of the previous action and returns the next one.
    pub fn step(&mut self, event: Event) -> (a: Action)
        requires
            expects(old(self)@.phase, event@),
            worker_inv(old(self)@),
        ensures
            (final(self)@, a@) == next(old(self)@, event@),
            worker_inv(final(self)@),
    {
        proof {
            lemma_next_keeps_inv(self@, event@);
            assert(self.links.deep_view().len() == self.links.len());
        }
        match self.phase {
            Phase::Idle => self.go_to_queue(),
            Phase::Popping => match event {
                Event::Popped(Some(u)) => {
                    self.phase = Phase::CheckingVisited;
                    self.empty_polls = 0;
                    self.url = u;
                    Action::CheckVisited(self.url.clone())
                },
                _ => {
                    let polls = self.empty_polls + 1;
                    self.empty_polls = polls;
                    if polls >= MAX_EMPTY_POLLS {
                        self.go_stop()
                    } else {
                        self.phase = Phase::WaitingForQueue;
                        Action::Sleep(EMPTY_QUEUE_WAIT_MS)
                    }
                },
            },
            Phase::WaitingForQueue => self.go_to_queue(),
            Phase::CheckingVisited => match event {
                Event::Visited(true) => self.go_to_queue(),
                _ => {
                    self.phase = Phase::CheckingCount;
                    Action::ReadPageCount
                },
            },
            Phase::CheckingCount => match event {
                Event::PageCount(c) => {
                    if c >= self.max_pages {
                        self.go_stop()
                    } else {
                        match get_domain(self.url.as_str()) {
                            Some(d) => {
                                self.phase = Phase::Announcing;
                                self.domain = d;
                                Action::Announce(NoticeKind::Crawling, self.url.clone())
                            },
                            None => self.go_to_queue(),
                        }
                    }
                },
                _ => self.go_to_queue(),
            },
            Phase::Announcing => {
                self.phase = Phase::Claiming;
                Action::ClaimDomain(self.domain.clone())
            },
            Phase::Claiming => match event {
                Event::DomainClaimed(true) => match get_path(self.url.as_str()) {
                    Some(p) => {
                        self.phase = Phase::LoadingRobots;
                        self.path = p;
                        Action::LoadRobots(self.domain.clone())
                    },
                    None => self.go_to_queue(),
                },
                _ => {
                    self.phase = Phase::WaitingForDomain;
                    Action::Sleep(DOMAIN_RETRY_MS)
                },
            },
            Phase::WaitingForDomain => {
                self.phase = Phase::Claiming;
                Action::ClaimDomain(self.domain.clone())
            },
            Phase::LoadingRobots => match event {
                Event::Robots(rules) => {
                    if is_blocked(&rules, self.path.as_str()) {
                        self.phase = Phase::ReportingBlocked;
                        self.rules = rules;
                        Action::Announce(NoticeKind::Blocked, self.url.clone())
                    } else {
                        self.phase = Phase::Fetching;
                        self.rules = rules;
                        self.attempts = 0;
                        Action::Fetch(self.url.clone())
                    }
                },
                _ => self.go_to_queue(),
            },
            Phase::ReportingBlocked => self.go_to_queue(),
            Phase::Fetching => match event {
                Event::Fetched(Some(b)) => {
                    let content = extract_text(b.as_str());
                    let (title, description) = extract_metadata(b.as_str());
                    self.phase = Phase::Storing;
                    self.body = b;
                    Action::InsertPage(Page { url: self.url.clone(), title, description, content })
                },
                _ => {
                    let tried = self.attempts + 1;
                    self.attempts = tried;
                    if tried >= MAX_FETCH_ATTEMPTS {
                        self.phase = Phase::ReportingFailure;
                        Action::Announce(NoticeKind::Failed, self.url.clone())
                    } else {
                        Action::Fetch(self.url.clone())
                    }
                },
            },
            Phase::ReportingFailure => self.go_to_queue(),
            Phase::Storing => {
                self.phase = Phase::Reserving;
                Action::ReserveSlot
            },
            Phase::Reserving => match event {
                Event::SlotReserved(Some(id)) => {
                    self.phase = Phase::Marking;
                    self.page_id = id;
                    Action::MarkVisited(self.url.clone())
                },
                _ => self.go_stop(),
            },
            Phase::Marking => {
                let text = extract_text(self.body.as_str());
                let words = tokenizer(text.as_str());
                self.phase = Phase::Indexing;
                Action::AddDocument(self.url.clone(), words)
            },
            Phase::Indexing => {
                self.phase = Phase::Saving;
                Action::SavePage(self.body.clone(), self.page_id)
            },
            Phase::Saving => {
                let ls = extract_links(self.url.as_str(), self.body.as_str());
                let ls2 = ls.clone();
                assert(ls2.deep_view() =~= ls.deep_view());
                self.phase = Phase::Linking;
                self.links = ls;
                Action::AddLinks(self.url.clone(), ls2)
            },
            Phase::Linking => self.offer_link(0),
            Phase::Offering => match event {
                Event::Added(true) => {
                    self.phase = Phase::Queueing;
                    Action::PushUrl(self.links[self.next_link].clone())
                },
                _ => {
                    assert(self.next_link < self.links.len());
                    let i = self.next_link + 1;
                    self.offer_link(i)
                },
            },
            Phase::Queueing => {
                assert(self.next_link < self.links.len());
                let i = self.next_link + 1;
                self.offer_link(i)
            },
            Phase::Stopped => self.go_stop(),
        }
    }
}

/// Each step keeps the worker's invariant: fewer than `MAX_EMPTY_POLLS`
/// empty polls in a row unless stopped, fewer than `MAX_FETCH_ATTEMPTS`
/// attempts while fetching, and a link to offer while offering.
pub proof fn lemma_next_keeps_inv(w: WorkerModel, e: EventModel)
    requires
        worker_inv(w),
        expects(w.phase, e),
    ensures
        worker_inv(next(w, e).0),
{
}

/// A stopped worker stays stopped and asks for nothing more.
pub proof fn lemma_stopped_stays_stopped(w: WorkerModel, e: EventModel)
    requires
        w.phase is Stopped,
    ensures
        next(w, e).0.phase is Stopped,
        next(w, e).1 is Stop,
{
}

/// A URL that was visited already is dropped: the worker goes back to the queue.
pub proof fn lemma_visited_url_skipped(w: WorkerModel)
    requires
        w.phase is CheckingVisited,
    ensures
        next(w, EventModel::Visited(true)).1 is PopUrl,
{
}

/// A URL whose path the robots rules forbid is reported, never fetched.
pub proof fn lemma_blocked_url_not_fetched(w: WorkerModel, rules: Seq<Seq<char>>)
    requires
        w.phase is LoadingRobots,
        blocks(rules, w.path),
    ensures
        next(w, EventModel::Robots(rules)).1 == ActionModel::Announce(NoticeKind::Blocked, w.url),
{
}

/// A worker stops exactly when the queue has been empty `MAX_EMPTY_POLLS`
/// times in a row; a URL from the queue starts the count again.
pub proof fn lemma_empty_polls(w: WorkerModel, popped: Option<Seq<char>>)
    requires
        w.phase is Popping,
    ensures
        popped is Some ==> next(w, EventModel::Popped(popped)).0.empty_polls == 0,
        popped is None ==> (next(w, EventModel::Popped(popped)).1 is Stop <==> w.empty_polls + 1
            >= MAX_EMPTY_POLLS),
{
}

/// Once `max_pages` pages are counted, or no slot is left, the worker stops.
pub proof fn lemma_page_limit(w: WorkerModel, c: nat)
    ensures
        w.phase is CheckingCount && c >= w.max_pages ==> next(w, EventModel::PageCount(c)).1 is Stop,
        w.phase is Reserving ==> next(w, EventModel::SlotReserved(None)).1 is Stop,
{
}

/// A fetch is asked for only while fetching, with fewer than
/// `MAX_FETCH_ATTEMPTS` attempts made: the first after the robots check, each
/// further one after a failed attempt.
pub proof fn lemma_fetch_attempts(w: WorkerModel, e: EventModel)
    requires
        worker_inv(w),
        expects(w.phase, e),
        next(w, e).1 is Fetch,
    ensures
        next(w, e).0.phase is Fetching,
        next(w, e).0.attempts < MAX_FETCH_ATTEMPTS,
        w.phase is Fetching ==> next(w, e).0.attempts == w.attempts + 1,
        w.phase is LoadingRobots ==> next(w, e).0.attempts == 0,
{
}

/// A link is put on the queue only when it was new, and only a link of the
/// page just crawled.
pub proof fn lemma_push_only_new_links(w: WorkerModel, e: EventModel)
    requires
        worker_inv(w),
        expects(w.phase, e),
        next(w, e).1 is PushUrl,
    ensures
        w.phase is Offering,
        e == EventModel::Added(true),
        next(w, e).1 == ActionModel::PushUrl(w.links[w.next_link as int]),
{
}

/// Every link of a crawled page is offered to the queue, in order, whatever
/// the answer for the link before it: after a link that was seen already the
/// next link is offered at once; after a new link, that link is pushed on the
/// queue and then the next link is offered. After the last link the worker
/// goes back to the queue.
pub proof fn lemma_every_link_offered(w: WorkerModel)
    requires
        w.phase is Offering,
        w.next_link < w.links.len(),
    ensures
        next(w, EventModel::Added(true)).1 == ActionModel::PushUrl(w.links[w.next_link as int]),
        next(w, EventModel::Added(true)).0.phase is Queueing,
        next(w, EventModel::Added(true)).0.links == w.links,
        next(w, EventModel::Added(true)).0.next_link == w.next_link,
        w.next_link + 1 < w.links.len() ==> {
            &&& next(w, EventModel::Added(false)).1 == ActionModel::AddIfNotSeen(w.links[(w.next_link + 1) as int])
            &&& next(w, EventModel::Added(false)).0.phase is Offering
            &&& next(w, EventModel::Added(false)).0.links == w.links
            &&& next(w, EventModel::Added(false)).0.next_link == w.next_link + 1
            &&& next(next(w, EventModel::Added(true)).0, EventModel::Done).1 == ActionModel::AddIfNotSeen(
                w.links[(w.next_link + 1) as int],
            )
            &&& next(next(w, EventModel::Added(true)).0, EventModel::Done).0.phase is Offering
            &&& next(next(w, EventModel::Added(true)).0, EventModel::Done).0.links == w.links
            &&& next(next(w, EventModel::Added(true)).0, EventModel::Done).0.next_link == w.next_link + 1
        },
        w.next_link + 1 == w.links.len() ==> {
            &&& next(w, EventModel::Added(false)).1 is PopUrl
            &&& next(next(w, EventModel::Added(true)).0, EventModel::Done).1 is PopUrl
        },
{
}

/// Once a page's links are recorded, the first of them is offered to the
/// queue (the worker goes back to the queue where the page has none).
pub proof fn lemma_first_link_offered(w: WorkerModel)
    requires
        w.phase is Linking,
    ensures
        w.links.len() > 0 ==> next(w, EventModel::Done).1 == ActionModel::AddIfNotSeen(w.links[0]) && next(
            w,
            EventModel::Done,
        ).0.next_link == 0 && next(w, EventModel::Done).0.phase is Offering && next(w, EventModel::Done).0.links
            == w.links,
        w.links.len() == 0 ==> next(w, EventModel::Done).1 is PopUrl,
{
}

/// A fetched page is stored under its URL with its title (the inner HTML of
/// its first `<title>`, empty where it has none), its description (the
/// `content` of its first `<meta name="description">`, empty where there is
/// none or it has no `content`) and its text (its text nodes joined with
/// single spaces), never its raw HTML; the HTML is kept for the steps that
/// follow.
pub proof fn lemma_fetched_page_stored(w: WorkerModel, b: Seq<char>)
    requires
        w.phase is Fetching,
    ensures
        next(w, EventModel::Fetched(Some(b))).1 == ActionModel::InsertPage(
            PageRecord {
                url: w.url,
                title: if titles(b).len() > 0 {
                    titles(b)[0]
                } else {
                    Seq::<char>::empty()
                },
                description: if description_contents(b).len() > 0 && description_contents(b)[0] is Some {
                    description_contents(b)[0]->0
                } else {
                    Seq::<char>::empty()
                },
                content: joined(text_nodes(b), seq![' ']),
            },
        ),
        next(w, EventModel::Fetched(Some(b))).0.phase is Storing,
        next(w, EventModel::Fetched(Some(b))).0.body == b,
{
    assert(page_title(b) =~= (if titles(b).len() > 0 {
        titles(b)[0]
    } else {
        Seq::<char>::empty()
    }));
}

/// The whole crawl of one new URL `u`, from the queue to its links: the
/// worker checks that `u` was not visited, reads the page count, announces
/// `u`, claims its domain, loads that domain's robots rules, fetches `u`
/// (the path being allowed), stores the page, reserves a slot, marks `u`
/// visited, indexes the long lower-case words of the page's text, saves the
/// page under its slot number and records the page's links.
pub proof fn lemma_page_pipeline(
    w: WorkerModel,
    u: Seq<char>,
    c: nat,
    rules: Seq<Seq<char>>,
    b: Seq<char>,
    id: nat,
)
    requires
        w.phase is Popping,
        c < w.max_pages,
        domain_of(u) is Some,
        path_of(u) is Some,
        !blocks(rules, path_of(u)->0),
    ensures
        ({
            let s1 = next(w, EventModel::Popped(Some(u)));
            let s2 = next(s1.0, EventModel::Visited(false));
            let s3 = next(s2.0, EventModel::PageCount(c));
            let s4 = next(s3.0, EventModel::Done);
            let s5 = next(s4.0, EventModel::DomainClaimed(true));
            let s6 = next(s5.0, EventModel::Robots(rules));
            let s7 = next(s6.0, EventModel::Fetched(Some(b)));
            let s8 = next(s7.0, EventModel::Done);
            let s9 = next(s8.0, EventModel::SlotReserved(Some(id)));
            let s10 = next(s9.0, EventModel::Done);
            let s11 = next(s10.0, EventModel::Done);
            let s12 = next(s11.0, EventModel::Done);
            &&& s1.1 == ActionModel::CheckVisited(u)
            &&& s2.1 == ActionModel::ReadPageCount
            &&& s3.1 == ActionModel::Announce(NoticeKind::Crawling, u)
            &&& s4.1 == ActionModel::ClaimDomain(domain_of(u)->0)
            &&& s5.1 == ActionModel::LoadRobots(domain_of(u)->0)
            &&& s6.1 == ActionModel::Fetch(u)
            &&& s7.1 is InsertPage && s7.1->InsertPage_0.url == u
            &&& s8.1 == ActionModel::ReserveSlot
            &&& s9.1 == ActionModel::MarkVisited(u)
            &&& s10.1 == ActionModel::AddDocument(u, long_words(lowercase_words(joined(text_nodes(b), seq![' ']))))
            &&& s11.1 == ActionModel::SavePage(b, id)
            &&& s12.1 == ActionModel::AddLinks(u, links_from(u, anchor_hrefs(b)))
            &&& s12.0.links == links_from(u, anchor_hrefs(b))
        }),
{
}

/// A domain claimed too soon is waited for `DOMAIN_RETRY_MS` and asked for
/// again, as often as it takes.
pub proof fn lemma_busy_domain_retried(w: WorkerModel)
    requires
        w.phase is Claiming,
    ensures
        next(w, EventModel::DomainClaimed(false)).1 == ActionModel::Sleep(DOMAIN_RETRY_MS as nat),
        next(next(w, EventModel::DomainClaimed(false)).0, EventModel::Done).1 == ActionModel::ClaimDomain(
            w.domain,
        ),
        next(next(w, EventModel::DomainClaimed(false)).0, EventModel::Done).0.phase is Claiming,
{
}

/// A failed fetch is tried again until `MAX_FETCH_ATTEMPTS` attempts have
/// failed; then the URL is reported as failed and the worker goes back to
/// the queue.
pub proof fn lemma_failed_fetch_retried(w: WorkerModel)
    requires
        w.phase is Fetching,
    ensures
        w.attempts + 1 < MAX_FETCH_ATTEMPTS ==> next(w, EventModel::Fetched(None)).1 == ActionModel::Fetch(w.url)
            && next(w, EventModel::Fetched(None)).0.phase is Fetching,
        w.attempts + 1 >= MAX_FETCH_ATTEMPTS ==> next(w, EventModel::Fetched(None)).1 == ActionModel::Announce(
            NoticeKind::Failed,
            w.url,
        ) && next(next(w, EventModel::Fetched(None)).0, EventModel::Done).1 is PopUrl,
{
}

/// An empty queue is waited on for `EMPTY_QUEUE_WAIT_MS` and polled again,
/// until it has been empty `MAX_EMPTY_POLLS` times in a row.
pub proof fn lemma_empty_queue_waited(w: WorkerModel)
    requires
        w.phase is Popping,
        w.empty_polls + 1 < MAX_EMPTY_POLLS,
    ensures
        next(w, EventModel::Popped(None)).1 == ActionModel::Sleep(EMPTY_QUEUE_WAIT_MS as nat),
        next(next(w, EventModel::Popped(None)).0, EventModel::Done).1 is PopUrl,
{
}

/// The state of a worker that starts in `w` and takes the events `es` in turn.
pub open spec fn run(w: WorkerModel, es: Seq<EventModel>) -> WorkerModel
    decreases es.len(),
{
    if es.len() == 0 {
        w
    } else {
        next(run(w, es.drop_last()), es.last()).0
    }
}

/// Whether each of `es` is an event that the worker, started in `w`, waits for
/// when it comes.
pub open spec fn valid_run(w: WorkerModel, es: Seq<EventModel>) -> bool
    decreases es.len(),
{
    es.len() == 0 || (valid_run(w, es.drop_last()) && expects(run(w, es.drop_last()).phase, es.last()))
}

/// What the worker asks for on the last event of `es` (`es` not empty).
pub open spec fn last_action(w: WorkerModel, es: Seq<EventModel>) -> ActionModel {
    next(run(w, es.drop_last()), es.last()).1
}

/// Every state that a worker reaches from a state satisfying the invariant
/// satisfies it too.
pub proof fn lemma_run_keeps_inv(w: WorkerModel, es: Seq<EventModel>)
    requires
        worker_inv(w),
        valid_run(w, es),
    ensures
        worker_inv(run(w, es)),
    decreases es.len(),
{
    if es.len() > 0 {
        lemma_run_keeps_inv(w, es.drop_last());
        lemma_next_keeps_inv(run(w, es.drop_last()), es.last());
    }
}

/// In the run `es` from `w`, the worker's domain claim for `url` at `domain`
/// was granted: some event `DomainClaimed(true)` came while it was claiming
/// that domain for that URL.
pub open spec fn claim_granted(w: WorkerModel, es: Seq<EventModel>, url: Seq<char>, domain: Seq<char>) -> bool {
    exists|j: int|
        0 <= j < es.len() && es[j] == EventModel::DomainClaimed(true) && (#[trigger] run(w, es.take(j))).phase is Claiming
            && run(w, es.take(j)).url == url && run(w, es.take(j)).domain == domain
}

proof fn lemma_claim_granted_extend(w: WorkerModel, es: Seq<EventModel>, url: Seq<char>, domain: Seq<char>)
    requires
        es.len() > 0,
        claim_granted(w, es.drop_last(), url, domain),
    ensures
        claim_granted(w, es, url, domain),
{
    let es0 = es.drop_last();
    let j = choose|j: int|
        0 <= j < es0.len() && es0[j] == EventModel::DomainClaimed(true) && (#[trigger] run(w, es0.take(j))).phase is Claiming
            && run(w, es0.take(j)).url == url && run(w, es0.take(j)).domain == domain;
    assert(es.take(j) =~= es0.take(j));
    assert(es[j] == es0[j]);
}

/// Once a worker has passed the domain claim for a URL, the run holds a
/// granted claim for that URL and its domain.
pub proof fn lemma_claim_precedes(w: WorkerModel, es: Seq<EventModel>)
    requires
        !after_claim(w.phase),
        valid_run(w, es),
    ensures
        after_claim(run(w, es).phase) ==> claim_granted(w, es, run(w, es).url, run(w, es).domain),
    decreases es.len(),
{
    if es.len() > 0 {
        let es0 = es.drop_last();
        let w0 = run(w, es0);
        lemma_claim_precedes(w, es0);
        if after_claim(run(w, es).phase) {
            if after_claim(w0.phase) {
                assert(run(w, es).url == w0.url && run(w, es).domain == w0.domain);
                lemma_claim_granted_extend(w, es, w0.url, w0.domain);
            } else {
                let j = es0.len() as int;
                assert(es.take(j) =~= es0);
                assert(w0.phase is Claiming);
                assert(es[j] == EventModel::DomainClaimed(true));
                assert(run(w, es.take(j)) == w0);
            }
        }
    }
}

/// In any run of a worker from its start (or from any state before a domain
/// claim), every fetch it asks for is for the URL it crawls, after the claim
/// of that URL's domain was granted, and for a path that the robots rules it
/// was given allow.
pub proof fn lemma_every_fetch_allowed(w: WorkerModel, es: Seq<EventModel>)
    requires
        worker_inv(w),
        !after_claim(w.phase),
        valid_run(w, es),
        es.len() > 0,
        last_action(w, es) is Fetch,
    ensures
        last_action(w, es) == ActionModel::Fetch(run(w, es).url),
        claim_granted(w, es, run(w, es).url, run(w, es).domain),
        domain_of(run(w, es).url) == Some(run(w, es).domain),
        path_of(run(w, es).url) == Some(run(w, es).path),
        !blocks(run(w, es).rules, run(w, es).path),
{
    let es0 = es.drop_last();
    lemma_run_keeps_inv(w, es);
    lemma_run_keeps_inv(w, es0);
    lemma_fetch_attempts(run(w, es0), es.last());
    lemma_claim_precedes(w, es);
}

/// The actions that work on a fetched or fetching page: fetching, storing,
/// counting, marking, indexing and saving it, and recording and queueing its
/// links.
pub open spec fn works_on_page(a: ActionModel) -> bool {
    match a {
        ActionModel::Fetch(_) | ActionModel::InsertPage(_) | ActionModel::ReserveSlot
        | ActionModel::MarkVisited(_) | ActionModel::AddDocument(_, _) | ActionModel::SavePage(_, _)
        | ActionModel::AddLinks(_, _) | ActionModel::AddIfNotSeen(_) | ActionModel::PushUrl(_) => true,
        _ => false,
    }
}

/// In any run of a worker from its start, whatever it does with a page comes
/// after the claim of the page's domain was granted, and only for a page whose
/// path the robots rules of its domain allow: a URL that the rules block is
/// never fetched, stored, counted, marked, indexed or saved, and none of its
/// links is recorded or queued.
pub proof fn lemma_page_work_allowed(w: WorkerModel, es: Seq<EventModel>)
    requires
        worker_inv(w),
        !after_claim(w.phase),
        valid_run(w, es),
        es.len() > 0,
        works_on_page(last_action(w, es)),
    ensures
        after_robots(run(w, es).phase),
        claim_granted(w, es, run(w, es).url, run(w, es).domain),
        domain_of(run(w, es).url) == Some(run(w, es).domain),
        path_of(run(w, es).url) == Some(run(w, es).path),
        !blocks(run(w, es).rules, run(w, es).path),
{
    let es0 = es.drop_last();
    lemma_run_keeps_inv(w, es);
    lemma_run_keeps_inv(w, es0);
    lemma_claim_precedes(w, es);
}

/// The phases that follow a granted page slot.
pub open spec fn after_slot(p: Phase) -> bool {
    match p {
        Phase::Marking | Phase::Indexing | Phase::Saving | Phase::Linking | Phase::Offering
        | Phase::Queueing => true,
        _ => false,
    }
}

/// In the run `es` from `w`, a page slot was granted while the worker was
/// reserving one for `url`.
pub open spec fn slot_granted(w: WorkerModel, es: Seq<EventModel>, url: Seq<char>) -> bool {
    exists|j: int|
        0 <= j < es.len() && es[j] is SlotReserved && es[j]->SlotReserved_0 is Some && (#[trigger] run(
            w,
            es.take(j),
        )).phase is Reserving && run(w, es.take(j)).url == url
}

/// Once a worker works on a counted page, the run holds the slot granted to
/// that page's URL.
pub proof fn lemma_slot_precedes(w: WorkerModel, es: Seq<EventModel>)
    requires
        !after_slot(w.phase),
        valid_run(w, es),
    ensures
        after_slot(run(w, es).phase) ==> slot_granted(w, es, run(w, es).url),
    decreases es.len(),
{
    if es.len() > 0 {
        let es0 = es.drop_last();
        let w0 = run(w, es0);
        lemma_slot_precedes(w, es0);
        if after_slot(run(w, es).phase) {
            if after_slot(w0.phase) {
                let url = w0.url;
                let j = choose|j: int|
                    0 <= j < es0.len() && es0[j] is SlotReserved && es0[j]->SlotReserved_0 is Some && (#[trigger] run(
                        w,
                        es0.take(j),
                    )).phase is Reserving && run(w, es0.take(j)).url == url;
                assert(es.take(j) =~= es0.take(j));
                assert(es[j] == es0[j]);
            } else {
                let j = es0.len() as int;
                assert(es.take(j) =~= es0);
                assert(run(w, es.take(j)) == w0);
            }
        }
    }
}

/// In any run of a worker from its start, the page is marked visited,
/// indexed and saved, and its links recorded and queued, only after a page
/// slot was granted to its URL: every page recorded in the link graph is a
/// counted page.
pub proof fn lemma_counted_before_recorded(w: WorkerModel, es: Seq<EventModel>)
    requires
        !after_slot(w.phase),
        valid_run(w, es),
        es.len() > 0,
        match last_action(w, es) {
            ActionModel::MarkVisited(_) | ActionModel::AddDocument(_, _) | ActionModel::SavePage(_, _)
            | ActionModel::AddLinks(_, _) | ActionModel::AddIfNotSeen(_) | ActionModel::PushUrl(_) => true,
            _ => false,
        },
    ensures
        after_slot(run(w, es).phase),
        slot_granted(w, es, run(w, es).url),
        last_action(w, es) is AddLinks ==> last_action(w, es) == ActionModel::AddLinks(
            run(w, es).url,
            page_links(run(w, es).url, run(w, es).body),
        ),
{
    lemma_slot_precedes(w, es);
}

} // verus!
