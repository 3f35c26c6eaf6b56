//! The peripheral side of Bluetooth Low Energy: how it is brought up, whom it serves, and which
//! writes count.

use vstd::prelude::*;

use crate::protocol::errors::{joined, MlinkError, Result};
use crate::strmap::StrMap;
use crate::text::{decimal, hex_of, hex_string, push_decimal};
use crate::transport::ble::advertised;

verus! {

/// How long each step of the bring-up may take, in seconds: long enough for a permission prompt,
/// short enough not to hang.
pub const BRING_UP_TIMEOUT: u64 = 10;

/// How often a notification is tried again when the radio's queue is full.
pub const MAX_NOTIFY_ATTEMPTS: u32 = 50;

/// The state of the radio.
#[derive(Debug, Clone, Copy, PartialEq, Eq, Structural)]
pub enum ManagerState {
    Unknown,
    Resetting,
    Unsupported,
    Unauthorized,
    PoweredOff,
    PoweredOn,
}

/// The platform's number for a state.
pub open spec fn state_code(s: ManagerState) -> nat {
    match s {
        ManagerState::Unknown => 0,
        ManagerState::Resetting => 1,
        ManagerState::Unsupported => 2,
        ManagerState::Unauthorized => 3,
        ManagerState::PoweredOff => 4,
        ManagerState::PoweredOn => 5,
    }
}

impl ManagerState {
    pub fn code(self) -> (n: u8)
        ensures
            n == state_code(self),
    {
        match self {
            ManagerState::Unknown => 0,
            ManagerState::Resetting => 1,
            ManagerState::Unsupported => 2,
            ManagerState::Unauthorized => 3,
            ManagerState::PoweredOff => 4,
            ManagerState::PoweredOn => 5,
        }
    }
}

/// What the radio tells.
#[derive(Debug)]
pub enum PeripheralEvent {
    StateChanged(ManagerState),
    /// The service is registered, or why it is not.
    ServiceAdded(std::result::Result<(), String>),
    /// Advertising has started, or why it has not.
    AdvertisingStarted(std::result::Result<(), String>),
    /// A central wants to be notified: it is connected.
    CentralSubscribed { central_id: String },
    /// A central has written something.
    Received(Vec<u8>),
}

/// What came while something was waited for.
pub enum Awaited {
    Event(PeripheralEvent),
    /// Nothing more will come.
    Closed,
    TimedOut,
}

/// Whether a wait is over.
pub enum WaitStep {
    Done,
    /// That was not it; wait on.
    Wait,
    Fail(MlinkError),
}

/// Whether a step ends the wait with this message.
pub open spec fn fails_with(step: WaitStep, why: Seq<char>) -> bool {
    step matches WaitStep::Fail(MlinkError::HandlerError(m)) && m@ == why
}

/// Whether the radio will not become usable from this state by itself.
pub open spec fn is_unusable(s: ManagerState) -> bool {
    s is Unauthorized || s is Unsupported || s is PoweredOff
}

fn fail(why: &str) -> (step: WaitStep)
    ensures
        fails_with(step, why@),
{
    WaitStep::Fail(MlinkError::HandlerError(why.to_owned()))
}

/// What an event means while the radio is being switched on.
pub open spec fn powered_on_step(awaited: Awaited, step: WaitStep) -> bool {
    match awaited {
        Awaited::TimedOut => fails_with(
            step,
            "CBPeripheralManager never reached PoweredOn within 10s"@,
        ),
        Awaited::Closed => fails_with(
            step,
            "peripheral event channel closed before PoweredOn"@,
        ),
        Awaited::Event(PeripheralEvent::StateChanged(s)) => if s is PoweredOn {
            step is Done
        } else if is_unusable(s) {
            fails_with(
                step,
                "CBPeripheralManager in non-usable state CBManagerState("@ + decimal(
                    state_code(s),
                ) + ")"@,
            )
        } else {
            step is Wait
        },
        Awaited::Event(_) => step is Wait,
    }
}

/// Waits until the radio is on. Nothing may be registered or advertised before.
pub fn wait_for_powered_on(awaited: Awaited) -> (step: WaitStep)
    ensures
        powered_on_step(awaited, step),
{
    match awaited {
        Awaited::TimedOut => fail("CBPeripheralManager never reached PoweredOn within 10s"),
        Awaited::Closed => fail("peripheral event channel closed before PoweredOn"),
        Awaited::Event(PeripheralEvent::StateChanged(s)) => match s {
            ManagerState::PoweredOn => WaitStep::Done,
            ManagerState::Unauthorized | ManagerState::Unsupported | ManagerState::PoweredOff => {
                let mut m = "CBPeripheralManager in non-usable state CBManagerState(".to_owned();
                push_decimal(&mut m, s.code() as u64);
                m.append(")");
                WaitStep::Fail(MlinkError::HandlerError(m))
            },
            _ => WaitStep::Wait,
        },
        Awaited::Event(_) => WaitStep::Wait,
    }
}

/// What an event means while the service is being registered.
pub open spec fn service_added_step(awaited: Awaited, step: WaitStep) -> bool {
    match awaited {
        Awaited::TimedOut => fails_with(step, "didAddService callback never fired within 10s"@),
        Awaited::Closed => fails_with(
            step,
            "peripheral event channel closed before didAddService"@,
        ),
        Awaited::Event(PeripheralEvent::ServiceAdded(Ok(_))) => step is Done,
        Awaited::Event(PeripheralEvent::ServiceAdded(Err(m))) => fails_with(
            step,
            "addService failed: "@ + m@,
        ),
        Awaited::Event(_) => step is Wait,
    }
}

/// Waits until the service is registered. Advertising before would go out without it.
pub fn wait_for_service_added(awaited: Awaited) -> (step: WaitStep)
    ensures
        service_added_step(awaited, step),
{
    match awaited {
        Awaited::TimedOut => fail("didAddService callback never fired within 10s"),
        Awaited::Closed => fail("peripheral event channel closed before didAddService"),
        Awaited::Event(PeripheralEvent::ServiceAdded(Ok(_))) => WaitStep::Done,
        Awaited::Event(PeripheralEvent::ServiceAdded(Err(m))) => WaitStep::Fail(
            MlinkError::HandlerError(joined("addService failed: ", m.as_str())),
        ),
        Awaited::Event(_) => WaitStep::Wait,
    }
}

/// What an event means while advertising is being started.
pub open spec fn advertising_step(awaited: Awaited, step: WaitStep) -> bool {
    match awaited {
        Awaited::TimedOut => fails_with(
            step,
            "didStartAdvertising callback never fired within 10s"@,
        ),
        Awaited::Closed => fails_with(
            step,
            "peripheral event channel closed before didStartAdvertising"@,
        ),
        Awaited::Event(PeripheralEvent::AdvertisingStarted(Ok(_))) => step is Done,
        Awaited::Event(PeripheralEvent::AdvertisingStarted(Err(m))) => fails_with(
            step,
            "startAdvertising failed: "@ + m@,
        ),
        Awaited::Event(_) => step is Wait,
    }
}

/// Waits until advertising has started.
pub fn wait_for_advertising_started(awaited: Awaited) -> (step: WaitStep)
    ensures
        advertising_step(awaited, step),
{
    match awaited {
        Awaited::TimedOut => fail("didStartAdvertising callback never fired within 10s"),
        Awaited::Closed => fail("peripheral event channel closed before didStartAdvertising"),
        Awaited::Event(PeripheralEvent::AdvertisingStarted(Ok(_))) => WaitStep::Done,
        Awaited::Event(PeripheralEvent::AdvertisingStarted(Err(m))) => WaitStep::Fail(
            MlinkError::HandlerError(joined("startAdvertising failed: ", m.as_str())),
        ),
        Awaited::Event(_) => WaitStep::Wait,
    }
}

/// How far the bring-up has come.
#[derive(Debug, Clone, Copy, PartialEq, Eq, Structural)]
pub enum BringUpStage {
    /// The radio is to be switched on.
    PoweringOn,
    /// The service is to be registered.
    AddingService,
    /// Advertising is to start.
    Advertising,
    /// The node can be found.
    Up,
}

/// What the bring-up does next.
pub enum BringUpAction {
    /// Wait for the next event.
    Wait,
    /// Register the service, then wait.
    AddService,
    /// Start advertising, then wait.
    StartAdvertising,
    /// Nothing: it is done.
    Ready,
    /// Give up.
    Fail(MlinkError),
}

/// The stage after a wait has ended well, and what is to be done there.
pub open spec fn stage_after(stage: BringUpStage) -> BringUpStage {
    match stage {
        BringUpStage::PoweringOn => BringUpStage::AddingService,
        BringUpStage::AddingService => BringUpStage::Advertising,
        _ => BringUpStage::Up,
    }
}

/// Whether `action` is the one that opens a stage.
pub open spec fn opens(stage: BringUpStage, action: BringUpAction) -> bool {
    match stage {
        BringUpStage::PoweringOn => false,
        BringUpStage::AddingService => action is AddService,
        BringUpStage::Advertising => action is StartAdvertising,
        BringUpStage::Up => action is Ready,
    }
}

/// One step of the bring-up, from what the wait of its stage has come to.
pub open spec fn brought_up(
    before: BringUpStage,
    after: BringUpStage,
    step: WaitStep,
    action: BringUpAction,
) -> bool {
    match step {
        WaitStep::Done => after == stage_after(before) && opens(after, action),
        WaitStep::Wait => after == before && action is Wait,
        WaitStep::Fail(e) => after == before && action == BringUpAction::Fail(e),
    }
}

fn advance(stage: &mut BringUpStage, step: WaitStep) -> (action: BringUpAction)
    ensures
        brought_up(*old(stage), *final(stage), step, action),
{
    match step {
        WaitStep::Wait => BringUpAction::Wait,
        WaitStep::Fail(e) => BringUpAction::Fail(e),
        WaitStep::Done => match *stage {
            BringUpStage::PoweringOn => {
                *stage = BringUpStage::AddingService;
                BringUpAction::AddService
            },
            BringUpStage::AddingService => {
                *stage = BringUpStage::Advertising;
                BringUpAction::StartAdvertising
            },
            _ => {
                *stage = BringUpStage::Up;
                BringUpAction::Ready
            },
        },
    }
}

/// Brings the peripheral up, one event at a time: the service is registered once the radio is
/// on, and advertised once it is registered.
pub fn start(stage: &mut BringUpStage, awaited: Awaited) -> (action: BringUpAction)
    ensures
        match *old(stage) {
            BringUpStage::PoweringOn => exists|step: WaitStep| #[trigger]
                powered_on_step(awaited, step) && brought_up(
                    *old(stage),
                    *final(stage),
                    step,
                    action,
                ),
            BringUpStage::AddingService => exists|step: WaitStep| #[trigger]
                service_added_step(awaited, step) && brought_up(
                    *old(stage),
                    *final(stage),
                    step,
                    action,
                ),
            BringUpStage::Advertising => exists|step: WaitStep| #[trigger]
                advertising_step(awaited, step) && brought_up(
                    *old(stage),
                    *final(stage),
                    step,
                    action,
                ),
            BringUpStage::Up => *final(stage) is Up && action is Ready,
        },
{
    match *stage {
        BringUpStage::PoweringOn => {
            let step = wait_for_powered_on(awaited);
            advance(stage, step)
        },
        BringUpStage::AddingService => {
            let step = wait_for_service_added(awaited);
            advance(stage, step)
        },
        BringUpStage::Advertising => {
            let step = wait_for_advertising_started(awaited);
            advance(stage, step)
        },
        BringUpStage::Up => BringUpAction::Ready,
    }
}

/// The service goes on the air only after it was registered, and is registered only after the
/// radio was on: no step skips a stage.
pub proof fn no_stage_is_skipped(
    before: BringUpStage,
    after: BringUpStage,
    step: WaitStep,
    action: BringUpAction,
)
    requires
        brought_up(before, after, step, action),
    ensures
        action is AddService ==> before is PoweringOn && step is Done,
        action is StartAdvertising ==> before is AddingService && step is Done,
        after != before ==> step is Done,
{
}

/// Waits for a central. `None`: that was none; wait on. `event` is `None` where nothing more
/// will come.
pub fn wait_for_central(event: Option<PeripheralEvent>) -> (r: Result<Option<String>>)
    ensures
        match event {
            Some(PeripheralEvent::CentralSubscribed { central_id }) => r matches Ok(Some(id)) && id@
                == central_id@,
            Some(_) => r matches Ok(None),
            None => r matches Err(MlinkError::HandlerError(m)) && m@
                == "peripheral event channel closed before a central subscribed"@,
        },
{
    match event {
        Some(PeripheralEvent::CentralSubscribed { central_id }) => Ok(Some(central_id)),
        Some(_) => Ok(None),
        None => Err(
            MlinkError::HandlerError(
                "peripheral event channel closed before a central subscribed".to_owned(),
            ),
        ),
    }
}

/// The name that a node advertises: its own, and the room's hash behind a `#` if there is one.
pub fn advertised_name(local_name: &str, room_hash: Option<[u8; 8]>) -> (s: String)
    ensures
        s@ == advertised(local_name@, room_hash),
{
    let mut s = local_name.to_owned();
    if let Some(h) = room_hash {
        s.append("#");
        s.append(hex_encode(&h).as_str());
    }
    s
}

/// Two lowercase hexadecimal digits per byte.
pub fn hex_encode(bytes: &[u8]) -> (s: String)
    ensures
        s@ == hex_of(bytes@),
{
    hex_string(bytes)
}

/// An ASCII letter in lower case; any other character as it is.
pub open spec fn ascii_lower(c: char) -> char {
    if 'A' <= c <= 'Z' {
        (c as u32 + 32) as char
    } else {
        c
    }
}

/// A text with its ASCII letters in lower case.
pub open spec fn lowered(t: Seq<char>) -> Seq<char> {
    Seq::new(t.len(), |i: int| ascii_lower(t[i]))
}

fn lower(c: char) -> (r: char)
    ensures
        r == ascii_lower(c),
{
    if 'A' <= c && c <= 'Z' {
        let b: u8 = c as u8 + 32;
        b as char
    } else {
        c
    }
}

/// Whether two UUIDs are the same; the case of the letters does not count.
pub fn uuid_matches(uuid_str: &str, expected: &str) -> (r: bool)
    ensures
        r == (lowered(uuid_str@) == lowered(expected@)),
{
    let n: usize = uuid_str.unicode_len();
    if n != expected.unicode_len() {
        assert(lowered(uuid_str@).len() != lowered(expected@).len());
        return false;
    }
    let mut i: usize = 0;
    while i < n
        invariant
            i <= n,
            n == uuid_str@.len(),
            n == expected@.len(),
            forall|j: int|
                0 <= j < i ==> #[trigger] lowered(uuid_str@)[j] == lowered(expected@)[j],
        decreases n - i,
    {
        if lower(uuid_str.get_char(i)) != lower(expected.get_char(i)) {
            assert(lowered(uuid_str@)[i as int] != lowered(expected@)[i as int]);
            return false;
        }
        i = i + 1;
    }
    assert(lowered(uuid_str@) =~= lowered(expected@));
    true
}

/// What becomes of a write.
#[derive(Debug, PartialEq, Eq, Structural)]
pub enum WriteRouteDecision {
    /// It goes to the central that made it.
    Deliver,
    /// It is passed over.
    Ignore,
}

/// Only a write to the right characteristic that holds something is delivered.
pub fn classify_write(request_char_uuid: &str, tx_char_uuid: &str, payload_len: usize) -> (d:
    WriteRouteDecision)
    ensures
        d is Deliver <==> lowered(request_char_uuid@) == lowered(tx_char_uuid@) && payload_len > 0,
{
    if !uuid_matches(request_char_uuid, tx_char_uuid) {
        return WriteRouteDecision::Ignore;
    }
    if payload_len == 0 {
        return WriteRouteDecision::Ignore;
    }
    WriteRouteDecision::Deliver
}

/// Where the writes of each central go. Every central has its own channel, so that no reader
/// gets what another central has written.
pub struct CentralRoutes<S> {
    routes: StrMap<S>,
}

impl<S> View for CentralRoutes<S> {
    type V = Map<Seq<char>, S>;

    closed spec fn view(&self) -> Map<Seq<char>, S> {
        self.routes@
    }
}

impl<S> CentralRoutes<S> {
    pub closed spec fn wf(&self) -> bool {
        self.routes.wf()
    }

    pub fn new() -> (r: Self)
        ensures
            r.wf(),
            r@ == Map::<Seq<char>, S>::empty(),
    {
        CentralRoutes { routes: StrMap::new() }
    }

    /// Opens a channel for a central. One that it had before is replaced, which closes it.
    pub fn subscribe(&mut self, central_id: String, channel: S) -> (replaced: Option<S>)
        requires
            old(self).wf(),
        ensures
            final(self).wf(),
            final(self)@ == old(self)@.insert(central_id@, channel),
            match replaced {
                Some(was) => old(self)@.dom().contains(central_id@) && was
                    == old(self)@[central_id@],
                None => !old(self)@.dom().contains(central_id@),
            },
    {
        self.routes.insert(central_id, channel)
    }

    /// Closes the channel of a central that is gone.
    pub fn unsubscribe(&mut self, central_id: &str) -> (closed: Option<S>)
        requires
            old(self).wf(),
        ensures
            final(self).wf(),
            final(self)@ == old(self)@.remove(central_id@),
            match closed {
                Some(was) => old(self)@.dom().contains(central_id@) && was
                    == old(self)@[central_id@],
                None => !old(self)@.dom().contains(central_id@),
            },
    {
        self.routes.remove(central_id)
    }

    /// The channel for what a central has written; nothing for one that is unknown.
    pub fn route(&self, central_id: &str) -> (r: Option<&S>)
        requires
            self.wf(),
        ensures
            match r {
                Some(c) => self@.dom().contains(central_id@) && *c == self@[central_id@],
                None => !self@.dom().contains(central_id@),
            },
    {
        self.routes.get(central_id)
    }
}

/// Counts one more attempt to notify while the queue is full.
pub fn next_attempt(attempts: u32) -> (r: Result<u32>)
    ensures
        if attempts < MAX_NOTIFY_ATTEMPTS {
            r matches Ok(n) && n == attempts + 1
        } else {
            r matches Err(MlinkError::HandlerError(m)) && m@
                == "peripheral updateValue queue stayed full for >500ms"@
        },
        r is Ok <==> attempts < 50,
{
    if attempts < MAX_NOTIFY_ATTEMPTS {
        Ok(attempts + 1)
    } else {
        Err(
            MlinkError::HandlerError(
                "peripheral updateValue queue stayed full for >500ms".to_owned(),
            ),
        )
    }
}

/// While the radio is being switched on only its state counts: on ends the wait, a state that it
/// will not leave by itself fails, and so do the end of the events and of the time. Every other
/// event is waited through.
pub proof fn radio_is_waited_for(awaited: Awaited, step: WaitStep)
    requires
        powered_on_step(awaited, step),
    ensures
        step is Done <==> (awaited matches Awaited::Event(PeripheralEvent::StateChanged(s)) && s
            is PoweredOn),
        step is Fail <==> awaited is TimedOut || awaited is Closed || (awaited matches Awaited::Event(
            PeripheralEvent::StateChanged(s),
        ) && (s is Unauthorized || s is Unsupported || s is PoweredOff)),
{
}

/// While the service is being registered, and while advertising is being started, only the answer
/// counts, and the end of the events or of the time; every other event is waited through.
pub proof fn answers_are_waited_for(awaited: Awaited, added: WaitStep, started: WaitStep)
    requires
        service_added_step(awaited, added),
        advertising_step(awaited, started),
    ensures
        added is Done <==> (awaited matches Awaited::Event(PeripheralEvent::ServiceAdded(Ok(_)))),
        added is Fail <==> awaited is TimedOut || awaited is Closed || (awaited
            matches Awaited::Event(PeripheralEvent::ServiceAdded(Err(_)))),
        started is Done <==> (awaited matches Awaited::Event(
            PeripheralEvent::AdvertisingStarted(Ok(_)),
        )),
        started is Fail <==> awaited is TimedOut || awaited is Closed || (awaited
            matches Awaited::Event(PeripheralEvent::AdvertisingStarted(Err(_)))),
{
}

/// The bring-up goes through its stages in order, one with each wait that ends well, and each is
/// opened by what it is for; while it waits or fails it stays where it is.
pub proof fn stages_follow_one_another(
    before: BringUpStage,
    after: BringUpStage,
    step: WaitStep,
    action: BringUpAction,
)
    requires
        brought_up(before, after, step, action),
    ensures
        step is Done && before is PoweringOn ==> after is AddingService && action is AddService,
        step is Done && before is AddingService ==> after is Advertising && action
            is StartAdvertising,
        step is Done && before is Advertising ==> after is Up && action is Ready,
        step is Wait ==> after == before && action is Wait,
        step matches WaitStep::Fail(e) ==> after == before && action == BringUpAction::Fail(e),
{
}

/// Two texts of which the letters differ in case alone count as the same, and texts of different
/// length never do. A letter in either case is only the same as itself.
pub proof fn only_the_case_does_not_count(a: Seq<char>, b: Seq<char>, i: int)
    ensures
        lowered(a) == lowered(b) ==> a.len() == b.len(),
        lowered(a) == lowered(b) && 0 <= i < a.len() ==> a[i] == b[i] || (('A' <= a[i] <= 'Z')
            && b[i] as u32 == a[i] as u32 + 32) || (('A' <= b[i] <= 'Z') && a[i] as u32
            == b[i] as u32 + 32),
        a.len() == b.len() && (forall|k: int|
            0 <= k < a.len() ==> #[trigger] a[k] == b[k] || (('A' <= a[k] <= 'Z') && b[k] as u32
                == a[k] as u32 + 32) || (('A' <= b[k] <= 'Z') && a[k] as u32 == b[k] as u32 + 32))
            ==> lowered(a) == lowered(b),
{
    if lowered(a) == lowered(b) && 0 <= i < a.len() {
        assert(lowered(a).len() == lowered(b).len());
        assert(lowered(a)[i] == ascii_lower(a[i]));
        assert(lowered(b)[i] == ascii_lower(b[i]));
    }
    assert(lowered(a).len() == a.len() && lowered(b).len() == b.len());
    if a.len() == b.len() && (forall|k: int|
        0 <= k < a.len() ==> #[trigger] a[k] == b[k] || (('A' <= a[k] <= 'Z') && b[k] as u32
            == a[k] as u32 + 32) || (('A' <= b[k] <= 'Z') && a[k] as u32 == b[k] as u32 + 32)) {
        assert forall|k: int| 0 <= k < a.len() implies lowered(a)[k] == lowered(b)[k] by {
            assert(a[k] == b[k] || (('A' <= a[k] <= 'Z') && b[k] as u32 == a[k] as u32 + 32) || ((
            'A' <= b[k] <= 'Z') && a[k] as u32 == b[k] as u32 + 32));
        }
        assert(lowered(a) =~= lowered(b));
    }
}

/// The platform's numbers for the states of the radio.
pub proof fn states_are_numbered()
    ensures
        state_code(ManagerState::Unknown) == 0,
        state_code(ManagerState::Resetting) == 1,
        state_code(ManagerState::Unsupported) == 2,
        state_code(ManagerState::Unauthorized) == 3,
        state_code(ManagerState::PoweredOff) == 4,
        state_code(ManagerState::PoweredOn) == 5,
{
}

/// Why a wait has failed is told: that the time was up, that nothing more would come, or what the
/// radio has answered.
pub proof fn failed_waits_tell_why(awaited: Awaited, on: WaitStep, added: WaitStep, started: WaitStep)
    requires
        powered_on_step(awaited, on),
        service_added_step(awaited, added),
        advertising_step(awaited, started),
    ensures
        awaited is TimedOut ==> fails_with(
            on,
            "CBPeripheralManager never reached PoweredOn within 10s"@,
        ) && fails_with(added, "didAddService callback never fired within 10s"@) && fails_with(
            started,
            "didStartAdvertising callback never fired within 10s"@,
        ),
        awaited is Closed ==> fails_with(
            on,
            "peripheral event channel closed before PoweredOn"@,
        ) && fails_with(
            added,
            "peripheral event channel closed before didAddService"@,
        ) && fails_with(started, "peripheral event channel closed before didStartAdvertising"@),
        awaited matches Awaited::Event(PeripheralEvent::ServiceAdded(Err(m))) ==> fails_with(
            added,
            "addService failed: "@ + m@,
        ),
        awaited matches Awaited::Event(PeripheralEvent::AdvertisingStarted(Err(m))) ==> fails_with(
            started,
            "startAdvertising failed: "@ + m@,
        ),
        awaited matches Awaited::Event(PeripheralEvent::StateChanged(s)) ==> (s is Unauthorized || s
            is Unsupported || s is PoweredOff ==> fails_with(
            on,
            "CBPeripheralManager in non-usable state CBManagerState("@ + decimal(state_code(s))
                + ")"@,
        )),
        forall|step: WaitStep, why: Seq<char>| #[trigger]
            fails_with(step, why) <==> (step matches WaitStep::Fail(MlinkError::HandlerError(m))
                && m@ == why),
{
}

} // verus!
