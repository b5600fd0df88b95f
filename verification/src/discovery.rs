//! Which firmware a host runs, decided from the answers to all requests as they
//! come in.

use crate::error::{ErrorModel, FactoryError};
use crate::identify::{panic_message, PanicPayload};
use crate::time::Duration;
use vstd::prelude::*;

verus! {

/// How long a stock firmware that was recognised waits for a replacement firmware
/// to answer, in milliseconds.
pub const UPGRADE_WINDOW_MILLIS: u64 = 300;

/// How far the search has come.
#[derive(Clone, Copy, Debug, PartialEq, Eq, Structural)]
pub enum DiscoveryStage {
    /// No firmware has been recognised.
    Searching,
    /// A stock firmware has been recognised; a replacement firmware, which may
    /// answer to the same requests, still has a short time to show itself.
    Upgrading,
    /// The search is over.
    Settled,
}

/// What can happen during the search.
#[derive(Clone, Copy, Debug, PartialEq, Eq, Structural)]
pub enum DiscoveryEvent {
    /// A request is done, and a firmware recognised the answer or none did.
    Answer { firmware: Option<usize> },
    /// The time for the whole search is up.
    IdentificationTimeout,
    /// The time for a replacement firmware to show itself is up.
    UpgradeWindowElapsed,
}

/// What to do next.
#[derive(Clone, Copy, Debug, PartialEq, Eq, Structural)]
pub enum DiscoveryStep {
    /// Wait for the next event.
    Search,
    /// Wait for the next event, among them the end of the upgrade window.
    AwaitUpgrade,
    /// Have the firmware at this place in the registry build the miner.
    Build { firmware: usize },
    /// Report that no firmware was recognised.
    Unidentified,
}

/// The search for the firmware of one host. Firmwares are known by their place in
/// the registry.
#[derive(Debug)]
pub struct Discovery {
    stock: Vec<bool>,
    pending: usize,
    found: Option<usize>,
    stage: DiscoveryStage,
}

/// A [`Discovery`]: which firmwares are stock, how many requests are not done, the
/// firmware that was recognised, and the stage.
pub struct DiscoveryModel {
    pub stock: Seq<bool>,
    pub pending: nat,
    pub found: Option<usize>,
    pub stage: DiscoveryStage,
}

impl View for Discovery {
    type V = DiscoveryModel;

    closed spec fn view(&self) -> DiscoveryModel {
        DiscoveryModel {
            stock: self.stock@,
            pending: self.pending as nat,
            found: self.found,
            stage: self.stage,
        }
    }
}

impl DiscoveryModel {
    /// What holds of every search: it is over when no request is left, it has
    /// recognised nothing while it searches, and only a stock firmware waits for
    /// another.
    pub open spec fn wf(self) -> bool {
        &&& self.stage != DiscoveryStage::Settled ==> self.pending > 0
        &&& self.found matches Some(firmware) ==> firmware < self.stock.len()
        &&& self.stage == DiscoveryStage::Searching ==> self.found is None
        &&& self.stage == DiscoveryStage::Upgrading ==> self.found is Some
            && self.stock[self.found->0 as int]
    }

    /// Whether the search can hear of `event`: a firmware that recognised an answer
    /// is in the registry.
    pub open spec fn admits(self, event: DiscoveryEvent) -> bool {
        event matches DiscoveryEvent::Answer { firmware: Some(firmware) } ==> firmware
            < self.stock.len()
    }

    /// The start of a search with `pending` requests.
    pub open spec fn start(stock: Seq<bool>, pending: nat) -> DiscoveryModel {
        DiscoveryModel {
            stock,
            pending,
            found: None,
            stage: if pending == 0 {
                DiscoveryStage::Settled
            } else {
                DiscoveryStage::Searching
            },
        }
    }

    /// The search with one request less, over where that was the last.
    pub open spec fn one_done(self) -> DiscoveryModel {
        DiscoveryModel {
            pending: (self.pending - 1) as nat,
            stage: if self.pending <= 1 {
                DiscoveryStage::Settled
            } else {
                self.stage
            },
            ..self
        }
    }

    /// The search after `event`.
    pub open spec fn next(self, event: DiscoveryEvent) -> DiscoveryModel {
        match (self.stage, event) {
            (DiscoveryStage::Settled, _) => self,
            (_, DiscoveryEvent::IdentificationTimeout) => DiscoveryModel {
                stage: DiscoveryStage::Settled,
                ..self
            },
            (DiscoveryStage::Searching, DiscoveryEvent::UpgradeWindowElapsed) => self,
            (DiscoveryStage::Upgrading, DiscoveryEvent::UpgradeWindowElapsed) => DiscoveryModel {
                stage: DiscoveryStage::Settled,
                ..self
            },
            (_, DiscoveryEvent::Answer { firmware: None }) => self.one_done(),
            (stage, DiscoveryEvent::Answer { firmware: Some(firmware) }) => {
                if !self.stock[firmware as int] {
                    DiscoveryModel {
                        found: Some(firmware),
                        stage: DiscoveryStage::Settled,
                        ..self.one_done()
                    }
                } else if stage == DiscoveryStage::Searching {
                    DiscoveryModel {
                        found: Some(firmware),
                        stage: DiscoveryStage::Upgrading,
                        ..self
                    }.one_done()
                } else {
                    self.one_done()
                }
            },
        }
    }

    /// The search after all of `events`.
    pub open spec fn after(self, events: Seq<DiscoveryEvent>) -> DiscoveryModel
        decreases events.len(),
    {
        if events.len() == 0 {
            self
        } else {
            self.after(events.drop_last()).next(events.last())
        }
    }

    /// What to do next.
    pub open spec fn step(self) -> DiscoveryStep {
        match self.stage {
            DiscoveryStage::Searching => DiscoveryStep::Search,
            DiscoveryStage::Upgrading => DiscoveryStep::AwaitUpgrade,
            DiscoveryStage::Settled => match self.found {
                Some(firmware) => DiscoveryStep::Build { firmware },
                None => DiscoveryStep::Unidentified,
            },
        }
    }
}

impl Discovery {
    /// The start of a search with `requests` requests, where `stock` says of each
    /// firmware in the registry whether it is stock.
    pub fn new(stock: Vec<bool>, requests: usize) -> (discovery: Discovery)
        ensures
            discovery@ == DiscoveryModel::start(stock@, requests as nat),
            discovery@.wf(),
            discovery@.stock == stock@,
            discovery@.pending == requests,
            discovery@.found is None,
            discovery@.stage == DiscoveryStage::Settled <==> requests == 0,
            discovery@.stage == DiscoveryStage::Searching <==> requests > 0,
    {
        let stage = if requests == 0 {
            DiscoveryStage::Settled
        } else {
            DiscoveryStage::Searching
        };
        Discovery { stock, pending: requests, found: None, stage }
    }

    /// Takes note of `event`. The first replacement firmware that is recognised ends
    /// the search. The first stock firmware is kept, and ends it only when the
    /// upgrade window or the time is up or no request is left.
    pub fn record(&mut self, event: DiscoveryEvent)
        requires
            old(self)@.wf(),
            old(self)@.admits(event),
        ensures
            final(self)@ == old(self)@.next(event),
            final(self)@.wf(),
            final(self)@.stock == old(self)@.stock,
            final(self)@.found != old(self)@.found ==> event == (DiscoveryEvent::Answer {
                firmware: final(self)@.found,
            }),
            old(self)@.found is None && old(self)@.stage != DiscoveryStage::Settled ==> (
            event matches DiscoveryEvent::Answer { firmware: Some(named) } ==> final(self)@.found
                == Some(named)),
    {
        match (self.stage, event) {
            (DiscoveryStage::Settled, _) => {},
            (_, DiscoveryEvent::IdentificationTimeout) => {
                self.stage = DiscoveryStage::Settled;
            },
            (DiscoveryStage::Searching, DiscoveryEvent::UpgradeWindowElapsed) => {},
            (DiscoveryStage::Upgrading, DiscoveryEvent::UpgradeWindowElapsed) => {
                self.stage = DiscoveryStage::Settled;
            },
            (stage, DiscoveryEvent::Answer { firmware }) => {
                self.pending = self.pending - 1;
                if let Some(firmware) = firmware {
                    if !self.stock[firmware] {
                        self.found = Some(firmware);
                        self.stage = DiscoveryStage::Settled;
                    } else if let DiscoveryStage::Searching = stage {
                        self.found = Some(firmware);
                        self.stage = DiscoveryStage::Upgrading;
                    }
                }
                if self.pending == 0 {
                    self.stage = DiscoveryStage::Settled;
                }
            },
        }
    }

    /// What to do next.
    pub fn step(&self) -> (step: DiscoveryStep)
        ensures
            step == self@.step(),
            step == DiscoveryStep::Search <==> self@.stage == DiscoveryStage::Searching,
            step == DiscoveryStep::AwaitUpgrade <==> self@.stage == DiscoveryStage::Upgrading,
            self@.stage == DiscoveryStage::Settled ==> match self@.found {
                Some(firmware) => step == (DiscoveryStep::Build { firmware }),
                None => step == DiscoveryStep::Unidentified,
            },
    {
        match self.stage {
            DiscoveryStage::Searching => DiscoveryStep::Search,
            DiscoveryStage::Upgrading => DiscoveryStep::AwaitUpgrade,
            DiscoveryStage::Settled => match self.found {
                Some(firmware) => DiscoveryStep::Build { firmware },
                None => DiscoveryStep::Unidentified,
            },
        }
    }
}

/// How long a stock firmware that was recognised waits for a replacement firmware.
pub fn upgrade_window() -> (window: Duration)
    ensures
        window@ == UPGRADE_WINDOW_MILLIS * crate::time::NANOS_PER_MILLI,
{
    Duration::from_millis(UPGRADE_WINDOW_MILLIS)
}

/// What became of the construction of a miner.
pub enum Construction<M> {
    Built(M),
    /// The firmware failed to build it.
    Failed,
    /// It took too long.
    TimedOut,
}

/// The miner, if it was built; a miner that could not be built is reported as none.
pub fn constructed<M>(construction: Construction<M>) -> (miner: Option<M>)
    ensures
        miner == match construction {
            Construction::Built(miner) => Some(miner),
            Construction::Failed => None,
            Construction::TimedOut => None,
        },
{
    match construction {
        Construction::Built(miner) => Some(miner),
        Construction::Failed => None,
        Construction::TimedOut => None,
    }
}

/// What the search for one host comes to: the result, or the error that a panic of
/// a driver is reported as.
pub fn discovered<M>(result: Result<Result<Option<M>, FactoryError>, PanicPayload>) -> (miner: Result<
    Option<M>,
    FactoryError,
>)
    ensures
        match result {
            Ok(result) => miner == result,
            Err(payload) => miner matches Err(error) && error@ == (ErrorModel::DiscoveryPanic {
                message: payload.text(),
            }),
        },
{
    match result {
        Ok(result) => result,
        Err(payload) => Err(
            FactoryError::DiscoveryPanic { message: panic_message(&payload).to_owned() },
        ),
    }
}

/// What a scan makes of the search for one host: an error counts as no miner.
pub fn identified<M>(miner: Result<Option<M>, FactoryError>) -> (identified: Option<M>)
    ensures
        identified == match miner {
            Ok(miner) => miner,
            Err(_) => None,
        },
{
    match miner {
        Ok(miner) => miner,
        Err(_) => None,
    }
}

/// Whether `search` can hear of all of `events`.
pub open spec fn admits_all(search: DiscoveryModel, events: Seq<DiscoveryEvent>) -> bool {
    forall|i: int| 0 <= i < events.len() ==> search.admits(#[trigger] events[i])
}

/// The invariant holds after any events, and the registry stays the same.
pub proof fn law_search_stays_well_formed(search: DiscoveryModel, events: Seq<DiscoveryEvent>)
    requires
        search.wf(),
        admits_all(search, events),
    ensures
        search.after(events).wf(),
        search.after(events).stock == search.stock,
    decreases events.len(),
{
    if events.len() > 0 {
        assert forall|i: int| 0 <= i < events.drop_last().len() implies search.admits(
            #[trigger] events.drop_last()[i],
        ) by {
            assert(events.drop_last()[i] == events[i]);
        }
        law_search_stays_well_formed(search, events.drop_last());
        assert(search.admits(events[events.len() - 1]));
    }
}

/// A replacement firmware takes priority over stock: one that is recognised before
/// the search is over ends it and is its result, whatever was recognised before and
/// whatever follows.
pub proof fn law_replacement_takes_priority(
    search: DiscoveryModel,
    events: Seq<DiscoveryEvent>,
    k: int,
)
    requires
        search.wf(),
        admits_all(search, events),
        0 <= k < events.len(),
        search.after(events.take(k)).stage != DiscoveryStage::Settled,
        events[k] is Answer,
        events[k]->firmware is Some,
        !search.stock[events[k]->firmware->0 as int],
    ensures
        search.after(events).found == Some(events[k]->firmware->0),
        search.after(events).stage == DiscoveryStage::Settled,
    decreases events.len(),
{
    let front = events.drop_last();
    assert forall|i: int| 0 <= i < front.len() implies search.admits(#[trigger] front[i]) by {
        assert(front[i] == events[i]);
    }
    law_search_stays_well_formed(search, front);
    if k == events.len() - 1 {
        assert(events.take(k) =~= front);
    } else {
        assert(front.take(k) =~= events.take(k));
        assert(front[k] == events[k]);
        law_replacement_takes_priority(search, front, k);
    }
}

/// A firmware that was recognised is not lost, and the first stock firmware is not
/// replaced by another stock firmware.
pub proof fn law_recognised_firmware_is_kept(
    search: DiscoveryModel,
    events: Seq<DiscoveryEvent>,
    k: int,
)
    requires
        search.wf(),
        admits_all(search, events),
        0 <= k <= events.len(),
        search.after(events.take(k)).found is Some,
    ensures
        search.after(events).found is Some,
        search.stock[search.after(events).found->0 as int] ==> search.after(events).found
            == search.after(events.take(k)).found,
    decreases events.len(),
{
    if k == events.len() {
        assert(events.take(k) =~= events);
    } else {
        let front = events.drop_last();
        assert forall|i: int| 0 <= i < front.len() implies search.admits(#[trigger] front[i]) by {
            assert(front[i] == events[i]);
        }
        law_search_stays_well_formed(search, front);
        assert(front.take(k) =~= events.take(k));
        assert(search.admits(events[events.len() - 1]));
        law_recognised_firmware_is_kept(search, front, k);
    }
}

/// The number of requests that are done among `events`.
pub open spec fn answers(events: Seq<DiscoveryEvent>) -> nat
    decreases events.len(),
{
    if events.len() == 0 {
        0
    } else {
        answers(events.drop_last()) + if events.last() is Answer {
            1nat
        } else {
            0nat
        }
    }
}

/// A search is over once all its requests are done.
pub proof fn law_search_ends(search: DiscoveryModel, events: Seq<DiscoveryEvent>)
    requires
        search.wf(),
        admits_all(search, events),
    ensures
        answers(events) >= search.pending ==> search.after(events).stage
            == DiscoveryStage::Settled,
        search.after(events).stage != DiscoveryStage::Settled ==> search.after(events).pending
            == search.pending - answers(events),
    decreases events.len(),
{
    if events.len() > 0 {
        let front = events.drop_last();
        assert forall|i: int| 0 <= i < front.len() implies search.admits(#[trigger] front[i]) by {
            assert(front[i] == events[i]);
        }
        law_search_stays_well_formed(search, front);
        law_search_ends(search, front);
    }
}

/// A search that its time runs out on is over, with what was recognised by then.
pub proof fn law_timeout_ends_search(search: DiscoveryModel)
    ensures
        search.next(DiscoveryEvent::IdentificationTimeout).stage == DiscoveryStage::Settled,
        search.next(DiscoveryEvent::IdentificationTimeout).found == search.found,
{
}

/// What one event does to a search that goes on: an answer counts as one, a firmware comes
/// to be found only by being named, a replacement ends the search, a stock firmware is
/// kept from being found until it is over, and the search is over when no request is
/// left or its time is up.
pub proof fn law_one_event(search: DiscoveryModel, event: DiscoveryEvent)
    requires
        search.wf(),
        search.admits(event),
        search.stage != DiscoveryStage::Settled,
    ensures
        ({
            let next = search.next(event);
            &&& next.stock == search.stock
            &&& match event {
                DiscoveryEvent::Answer { firmware } => {
                    &&& next.pending == search.pending - 1
                    &&& next.pending == 0 ==> next.stage == DiscoveryStage::Settled
                    &&& match firmware {
                        Some(named) => if !search.stock[named as int] {
                            next.found == Some(named) && next.stage == DiscoveryStage::Settled
                        } else {
                            &&& next.found == if search.found is None {
                                Some(named)
                            } else {
                                search.found
                            }
                            &&& next.pending > 0 ==> next.stage == DiscoveryStage::Upgrading
                        },
                        None => next.found == search.found && (next.pending > 0 ==> next.stage
                            == search.stage),
                    }
                },
                DiscoveryEvent::IdentificationTimeout => next.found == search.found
                    && next.pending == search.pending && next.stage == DiscoveryStage::Settled,
                DiscoveryEvent::UpgradeWindowElapsed => {
                    &&& next.found == search.found
                    &&& next.pending == search.pending
                    &&& next.stage == if search.found is Some {
                        DiscoveryStage::Settled
                    } else {
                        DiscoveryStage::Searching
                    }
                },
            }
        }),
{
}

/// Nothing happens to a search that is over.
pub proof fn law_search_stays_over(search: DiscoveryModel, event: DiscoveryEvent)
    requires
        search.stage == DiscoveryStage::Settled,
    ensures
        search.next(event) == search,
{
}

/// A search begins with nothing found, and is over at once where nothing is asked.
pub proof fn law_search_begins(stock: Seq<bool>, pending: nat)
    ensures
        ({
            let search = DiscoveryModel::start(stock, pending);
            &&& search.stock == stock
            &&& search.pending == pending
            &&& search.found is None
            &&& pending == 0 ==> search.stage == DiscoveryStage::Settled
            &&& pending > 0 ==> search.stage == DiscoveryStage::Searching
            &&& search.wf()
        }),
{
}

/// The miner is built by the firmware that was found, and only once the search is over.
pub proof fn law_found_firmware_builds(search: DiscoveryModel, firmware: usize)
    ensures
        search.step() == (DiscoveryStep::Build { firmware }) <==> search.stage
            == DiscoveryStage::Settled && search.found == Some(firmware),
        search.step() == DiscoveryStep::Unidentified <==> search.stage == DiscoveryStage::Settled
            && search.found is None,
        search.step() == DiscoveryStep::Search <==> search.stage == DiscoveryStage::Searching,
        search.step() == DiscoveryStep::AwaitUpgrade <==> search.stage
            == DiscoveryStage::Upgrading,
{
}

/// The firmware that a search finds is one that an answer named. Where no answer named a
/// replacement firmware, it is the one that the first answer named that named any.
pub proof fn law_found_firmware_was_named(
    stock: Seq<bool>,
    pending: nat,
    events: Seq<DiscoveryEvent>,
)
    requires
        admits_all(DiscoveryModel::start(stock, pending), events),
    ensures
        ({
            let found = DiscoveryModel::start(stock, pending).after(events).found;
            &&& found is Some ==> exists|i: int|
                0 <= i < events.len() && #[trigger] events[i] == (DiscoveryEvent::Answer {
                    firmware: found,
                })
            &&& found is Some && (forall|i: int|
                0 <= i < events.len() ==> ((
                #[trigger] events[i]) matches DiscoveryEvent::Answer { firmware: Some(named) }
                    ==> stock[named as int])) ==> exists|i: int|
                0 <= i < events.len() && #[trigger] events[i] == (DiscoveryEvent::Answer {
                    firmware: found,
                }) && forall|j: int|
                    0 <= j < i ==> !((
                    #[trigger] events[j]) matches DiscoveryEvent::Answer { firmware: Some(_) })
        }),
    decreases events.len(),
{
    let start = DiscoveryModel::start(stock, pending);
    if events.len() > 0 {
        let front = events.drop_last();
        let last = events.len() - 1;
        assert forall|i: int| 0 <= i < front.len() implies start.admits(#[trigger] front[i]) by {
            assert(front[i] == events[i]);
        }
        law_found_firmware_was_named(stock, pending, front);
        law_search_stays_well_formed(start, front);
        let before = start.after(front);
        let found = start.after(events).found;
        assert(start.admits(events[last]));
        if before.stage != DiscoveryStage::Settled {
            law_one_event(before, events[last]);
        }
        if before.found is None && found is Some {
            assert(events[last] == (DiscoveryEvent::Answer { firmware: found }));
            lemma_nothing_found_nothing_named(stock, pending, front);
            assert forall|j: int| 0 <= j < last implies !((
            #[trigger] events[j]) matches DiscoveryEvent::Answer { firmware: Some(_) }) by {
                assert(front[j] == events[j]);
            }
        } else if before.found is Some {
            let i = choose|i: int|
                0 <= i < front.len() && #[trigger] front[i] == (DiscoveryEvent::Answer {
                    firmware: before.found,
                });
            assert(events[i] == front[i]);
            if found != before.found {
                assert(events[last] == (DiscoveryEvent::Answer { firmware: found }));
            }
            if forall|i: int|
                0 <= i < events.len() ==> ((
                #[trigger] events[i]) matches DiscoveryEvent::Answer { firmware: Some(named) }
                    ==> stock[named as int]) {
                assert forall|i: int| 0 <= i < front.len() implies ((
                #[trigger] front[i]) matches DiscoveryEvent::Answer { firmware: Some(named) }
                    ==> stock[named as int]) by {
                    assert(front[i] == events[i]);
                }
                let k = choose|k: int|
                    0 <= k < front.len() && #[trigger] front[k] == (DiscoveryEvent::Answer {
                        firmware: before.found,
                    }) && forall|j: int|
                        0 <= j < k ==> !((
                        #[trigger] front[j]) matches DiscoveryEvent::Answer { firmware: Some(_) });
                assert(events[k] == front[k]);
                assert forall|j: int| 0 <= j < k implies !((
                #[trigger] events[j]) matches DiscoveryEvent::Answer { firmware: Some(_) }) by {
                    assert(front[j] == events[j]);
                }
                assert(found == before.found);
            }
        }
    }
}

/// While a search goes on with nothing found, no answer has named a firmware.
proof fn lemma_nothing_found_nothing_named(
    stock: Seq<bool>,
    pending: nat,
    events: Seq<DiscoveryEvent>,
)
    requires
        admits_all(DiscoveryModel::start(stock, pending), events),
        DiscoveryModel::start(stock, pending).after(events).found is None,
        DiscoveryModel::start(stock, pending).after(events).stage != DiscoveryStage::Settled,
    ensures
        forall|i: int|
            0 <= i < events.len() ==> !((
            #[trigger] events[i]) matches DiscoveryEvent::Answer { firmware: Some(_) }),
    decreases events.len(),
{
    let start = DiscoveryModel::start(stock, pending);
    if events.len() > 0 {
        let front = events.drop_last();
        let last = events.len() - 1;
        assert forall|i: int| 0 <= i < front.len() implies start.admits(#[trigger] front[i]) by {
            assert(front[i] == events[i]);
        }
        law_search_stays_well_formed(start, front);
        assert(start.admits(events[last]));
        let before = start.after(front);
        law_one_event(before, events[last]);
        lemma_nothing_found_nothing_named(stock, pending, front);
        assert forall|i: int| 0 <= i < events.len() implies !((
        #[trigger] events[i]) matches DiscoveryEvent::Answer { firmware: Some(_) }) by {
            if i < last {
                assert(front[i] == events[i]);
            }
        }
    }
}

/// A search is not given up early: while requests are left, no time is up and no
/// replacement firmware was named, it goes on, waiting for a replacement exactly when a
/// stock firmware was found.
pub proof fn law_search_goes_on(stock: Seq<bool>, pending: nat, events: Seq<DiscoveryEvent>)
    requires
        admits_all(DiscoveryModel::start(stock, pending), events),
        events.len() < pending,
        forall|i: int|
            0 <= i < events.len() ==> ((
            #[trigger] events[i]) matches DiscoveryEvent::Answer { firmware } && (
            firmware matches Some(named) ==> stock[named as int])),
    ensures
        ({
            let search = DiscoveryModel::start(stock, pending).after(events);
            &&& search.pending == pending - events.len()
            &&& search.stage == if search.found is Some {
                DiscoveryStage::Upgrading
            } else {
                DiscoveryStage::Searching
            }
            &&& search.found is Some <==> exists|i: int|
                0 <= i < events.len() && ((
                #[trigger] events[i]) matches DiscoveryEvent::Answer { firmware: Some(_) })
        }),
    decreases events.len(),
{
    let start = DiscoveryModel::start(stock, pending);
    if events.len() > 0 {
        let front = events.drop_last();
        let last = events.len() - 1;
        assert forall|i: int| 0 <= i < front.len() implies start.admits(#[trigger] front[i]) && ((
        front[i]) matches DiscoveryEvent::Answer { firmware } && (firmware matches Some(named)
            ==> stock[named as int])) by {
            assert(front[i] == events[i]);
        }
        law_search_goes_on(stock, pending, front);
        law_search_stays_well_formed(start, front);
        assert(start.admits(events[last]));
        let before = start.after(front);
        law_one_event(before, events[last]);
        if exists|i: int|
            0 <= i < events.len() && ((
            #[trigger] events[i]) matches DiscoveryEvent::Answer { firmware: Some(_) }) {
            let i = choose|i: int|
                0 <= i < events.len() && ((
                #[trigger] events[i]) matches DiscoveryEvent::Answer { firmware: Some(_) });
            if i < last {
                assert(front[i] == events[i]);
            }
        }
        if before.found is Some {
            let i = choose|i: int|
                0 <= i < front.len() && ((
                #[trigger] front[i]) matches DiscoveryEvent::Answer { firmware: Some(_) });
            assert(events[i] == front[i]);
        }
    }
}

} // verus!
