//! Input events: their vocabulary, and the channel on which they reach the evaluator.

use crate::text::{append_text, begins_with, chars_of, has_prefix, same_text, text_from};
use vstd::prelude::*;

verus! {

/// An input event: a key went down or up, a mouse button was pressed or released.
#[derive(Debug, PartialEq, Eq)]
pub enum InputEvent {
    KeyDown(String),
    KeyUp(String),
    MouseClick(String),
    MouseRelease(String),
}

/// An input event, with its text as a sequence of characters.
pub enum EventView {
    KeyDown(Seq<char>),
    KeyUp(Seq<char>),
    MouseClick(Seq<char>),
    MouseRelease(Seq<char>),
}

impl View for InputEvent {
    type V = EventView;

    open spec fn view(&self) -> EventView {
        match self {
            InputEvent::KeyDown(k) => EventView::KeyDown(k@),
            InputEvent::KeyUp(k) => EventView::KeyUp(k@),
            InputEvent::MouseClick(b) => EventView::MouseClick(b@),
            InputEvent::MouseRelease(b) => EventView::MouseRelease(b@),
        }
    }
}

impl Clone for InputEvent {
    fn clone(&self) -> (r: Self)
        ensures
            r == *self,
    {
        match self {
            InputEvent::KeyDown(k) => InputEvent::KeyDown(k.clone()),
            InputEvent::KeyUp(k) => InputEvent::KeyUp(k.clone()),
            InputEvent::MouseClick(b) => InputEvent::MouseClick(b.clone()),
            InputEvent::MouseRelease(b) => InputEvent::MouseRelease(b.clone()),
        }
    }
}

/// The text that names an event: `keydown:`, `keyup:`, `click:` or `release:` before
/// the key or the button.
pub open spec fn key_of(ev: EventView) -> Seq<char> {
    match ev {
        EventView::KeyDown(k) => "keydown:"@ + k,
        EventView::KeyUp(k) => "keyup:"@ + k,
        EventView::MouseClick(b) => "click:"@ + b,
        EventView::MouseRelease(b) => "release:"@ + b,
    }
}

/// The event that a text names. A text without one of the four prefixes names a key
/// that went down, but for `click`, which names a click of a button called
/// `Synthetic`.
pub open spec fn event_of(s: Seq<char>) -> EventView {
    if begins_with(s, "keydown:"@) {
        EventView::KeyDown(s.skip("keydown:"@.len() as int))
    } else if begins_with(s, "keyup:"@) {
        EventView::KeyUp(s.skip("keyup:"@.len() as int))
    } else if begins_with(s, "click:"@) {
        EventView::MouseClick(s.skip("click:"@.len() as int))
    } else if begins_with(s, "release:"@) {
        EventView::MouseRelease(s.skip("release:"@.len() as int))
    } else if s == "click"@ {
        EventView::MouseClick("Synthetic"@)
    } else {
        EventView::KeyDown(s)
    }
}

/// Whether the event named `key` sets off what waits for `registered`: the names are
/// the same, or `registered` is `click` and `key` names any click.
pub open spec fn sets_off(registered: Seq<char>, key: Seq<char>) -> bool {
    registered == key || (registered == "click"@ && begins_with(key, "click"@))
}

/// The text that names an event.
pub fn event_key(ev: &InputEvent) -> (key: String)
    ensures
        key@ == key_of(ev@),
{
    match ev {
        InputEvent::KeyDown(k) => {
            let mut s = String::from_str("keydown:");
            append_text(&mut s, k.as_str());
            s
        },
        InputEvent::KeyUp(k) => {
            let mut s = String::from_str("keyup:");
            append_text(&mut s, k.as_str());
            s
        },
        InputEvent::MouseClick(b) => {
            let mut s = String::from_str("click:");
            append_text(&mut s, b.as_str());
            s
        },
        InputEvent::MouseRelease(b) => {
            let mut s = String::from_str("release:");
            append_text(&mut s, b.as_str());
            s
        },
    }
}

/// The event that a text names.
pub fn parse_event(text: &str) -> (ev: InputEvent)
    ensures
        ev@ == event_of(text@),
{
    let chars = chars_of(text);
    if has_prefix(&chars, "keydown:") {
        let n = "keydown:".unicode_len();
        InputEvent::KeyDown(text_from(&chars, n))
    } else if has_prefix(&chars, "keyup:") {
        let n = "keyup:".unicode_len();
        InputEvent::KeyUp(text_from(&chars, n))
    } else if has_prefix(&chars, "click:") {
        let n = "click:".unicode_len();
        InputEvent::MouseClick(text_from(&chars, n))
    } else if has_prefix(&chars, "release:") {
        let n = "release:".unicode_len();
        InputEvent::MouseRelease(text_from(&chars, n))
    } else if same_text(text, "click") {
        InputEvent::MouseClick(String::from_str("Synthetic"))
    } else {
        InputEvent::KeyDown(String::from_str(text))
    }
}

/// Whether the event named `key` sets off what waits for `registered`.
pub fn event_matches(registered: &str, key: &str) -> (r: bool)
    ensures
        r == sets_off(registered@, key@),
{
    if same_text(registered, key) {
        return true;
    }
    if same_text(registered, "click") {
        let chars = chars_of(key);
        return has_prefix(&chars, "click");
    }
    false
}

#[verifier::external_type_specification]
#[verifier::external_body]
#[verifier::reject_recursive_types(T)]
pub struct ExSender<T>(crossbeam_channel::Sender<T>);

#[verifier::external_type_specification]
#[verifier::external_body]
#[verifier::reject_recursive_types(T)]
pub struct ExReceiver<T>(crossbeam_channel::Receiver<T>);

/// Opens a channel without a bound, through `crossbeam_channel::unbounded`.
/// Nothing is claimed of the two ends.
#[verifier::external_body]
fn open_channel() -> (ends: (
    crossbeam_channel::Sender<InputEvent>,
    crossbeam_channel::Receiver<InputEvent>,
)) {
    crossbeam_channel::unbounded()
}

/// Takes the next event that waits in the channel, through `Receiver::try_recv`, which
/// does not wait. Nothing is claimed of the result: other threads send at any time.
#[verifier::external_body]
fn try_receive(receiver: &crossbeam_channel::Receiver<InputEvent>) -> (ev: Option<InputEvent>) {
    match receiver.try_recv() {
        Ok(ev) => Some(ev),
        Err(_) => None,
    }
}

/// Puts an event into the channel, through `Sender::send`, and says whether the
/// channel took it. Nothing is claimed of the result.
#[verifier::external_body]
fn send_event(sender: &crossbeam_channel::Sender<InputEvent>, ev: InputEvent) -> (sent: bool) {
    sender.send(ev).is_ok()
}

/// Another handle on the sending end, through `Sender::clone`.
#[verifier::external_body]
fn share_sender(sender: &crossbeam_channel::Sender<InputEvent>) -> (r: crossbeam_channel::Sender<
    InputEvent,
>) {
    sender.clone()
}

/// The channel on which input events reach the evaluator. Anyone with a sender may
/// publish; the evaluator alone takes events out.
pub struct EventBus {
    sender: crossbeam_channel::Sender<InputEvent>,
    receiver: crossbeam_channel::Receiver<InputEvent>,
}

impl EventBus {
    /// A bus with nothing waiting in it.
    pub fn new() -> Self {
        let (sender, receiver) = open_channel();
        EventBus { sender, receiver }
    }

    /// A sender for a publisher, such as a thread that listens to the keyboard.
    pub fn publisher(&self) -> crossbeam_channel::Sender<InputEvent> {
        share_sender(&self.sender)
    }

    /// Publishes an event, and says whether the bus took it.
    pub fn publish(&self, ev: InputEvent) -> bool {
        send_event(&self.sender, ev)
    }

    /// Takes the next event that waits, without waiting for one.
    pub fn poll(&self) -> Option<InputEvent> {
        try_receive(&self.receiver)
    }

    /// Takes all events that wait, in the order in which they came.
    pub fn drain(&self) -> (events: Vec<InputEvent>) {
        let mut events: Vec<InputEvent> = Vec::new();
        while events.len() < usize::MAX
            decreases usize::MAX - events.len(),
        {
            let polled = self.poll();
            if !take_in(&mut events, polled) {
                return events;
            }
        }
        events
    }
}

/// Takes in what one look into the bus gave: an event becomes the last of `events`;
/// with none, `events` stay as they are. Says whether there was an event.
pub fn take_in(events: &mut Vec<InputEvent>, polled: Option<InputEvent>) -> (more: bool)
    requires
        old(events)@.len() < usize::MAX,
    ensures
        match polled {
            Some(ev) => more && final(events)@ == old(events)@.push(ev),
            None => !more && final(events)@ == old(events)@,
        },
{
    match polled {
        Some(ev) => {
            events.push(ev);
            true
        },
        None => false,
    }
}

} // verus!
