//! The credit window: a fixed bound on the number of messages that have
//! been sent and not yet acknowledged.

use vstd::prelude::*;

verus! {

/// A credit window as plain numbers.
pub struct WindowView {
    /// Number of sends counted so far.
    pub sent: nat,
    /// Number of acknowledgments counted so far.
    pub acknowledged: nat,
    /// The most sends that may be unacknowledged at one time.
    pub capacity: nat,
}

impl WindowView {
    /// A window of the given capacity with nothing sent.
    pub open spec fn fresh(capacity: nat) -> WindowView {
        WindowView { sent: 0, acknowledged: 0, capacity }
    }

    /// What holds of every window: acknowledgments do not outnumber sends,
    /// and no more sends are unacknowledged than the capacity allows.
    pub open spec fn wf(self) -> bool {
        &&& self.acknowledged <= self.sent
        &&& self.sent - self.acknowledged <= self.capacity
        &&& self.sent <= u64::MAX
        &&& self.capacity <= u64::MAX
    }

    /// Number of sends that are not acknowledged yet.
    pub open spec fn in_flight(self) -> int {
        self.sent - self.acknowledged
    }

    /// Whether the window is open: fewer sends than the capacity are
    /// unacknowledged. A window whose send counter has reached the end of
    /// its range stays shut.
    pub open spec fn open(self) -> bool {
        self.in_flight() < self.capacity && self.sent < u64::MAX
    }

    /// The window after an attempt to send: the send is counted if the
    /// window is open, and refused otherwise.
    pub open spec fn send(self) -> WindowView {
        if self.open() {
            WindowView { sent: self.sent + 1, ..self }
        } else {
            self
        }
    }

    /// The window after `n` attempts to send in a row.
    pub open spec fn sends(self, n: nat) -> WindowView
        decreases n,
    {
        if n == 0 {
            self
        } else {
            self.sends((n - 1) as nat).send()
        }
    }

    /// The window after an acknowledgment has arrived: it is counted if a
    /// send is waiting for one, and passed over otherwise.
    pub open spec fn acknowledge(self) -> WindowView {
        if self.in_flight() > 0 {
            WindowView { acknowledged: self.acknowledged + 1, ..self }
        } else {
            self
        }
    }
}

/// Sends and acknowledgments keep a window within its bounds.
pub proof fn lemma_window_stays_bounded(w: WindowView)
    requires
        w.wf(),
    ensures
        w.send().wf(),
        w.acknowledge().wf(),
        0 <= w.in_flight() <= w.capacity,
{
}

/// A fresh window admits as many sends as its capacity says and refuses
/// every send after them: of `n` attempts in a row, the first `capacity`
/// are counted.
pub proof fn lemma_window_fills(capacity: nat, n: nat)
    requires
        capacity < u64::MAX,
    ensures
        WindowView::fresh(capacity).sends(n).wf(),
        WindowView::fresh(capacity).sends(n).acknowledged == 0,
        WindowView::fresh(capacity).sends(n).capacity == capacity,
        WindowView::fresh(capacity).sends(n).sent == (if n <= capacity { n } else { capacity }),
        WindowView::fresh(capacity).sends(n).open() == (n < capacity),
    decreases n,
{
    if n > 0 {
        lemma_window_fills(capacity, (n - 1) as nat);
    }
}

/// One acknowledgment admits exactly one more send: a window that is shut
/// because it is full opens when an acknowledgment arrives, and is shut
/// again after the next send.
pub proof fn lemma_acknowledgment_admits_one(w: WindowView)
    requires
        w.wf(),
        w.in_flight() == w.capacity,
        w.capacity > 0,
        w.sent < u64::MAX,
    ensures
        !w.open(),
        w.send() == w,
        w.acknowledge().open(),
        w.acknowledge().send().sent == w.sent + 1,
        !w.acknowledge().send().open(),
        w.acknowledge().send().send() == w.acknowledge().send(),
{
}

/// Counts sends and acknowledgments and says whether another send fits.
///
/// The window never holds more acknowledgments than sends, and never more
/// unacknowledged sends than its capacity.
#[derive(Debug, Clone, Copy)]
pub struct CreditWindow {
    sent: u64,
    acknowledged: u64,
    capacity: u64,
}

impl View for CreditWindow {
    type V = WindowView;

    closed spec fn view(&self) -> WindowView {
        WindowView {
            sent: self.sent as nat,
            acknowledged: self.acknowledged as nat,
            capacity: self.capacity as nat,
        }
    }
}

impl CreditWindow {
    #[verifier::type_invariant]
    spec fn inv(self) -> bool {
        self@.wf()
    }

    /// A window of the given capacity with nothing sent.
    pub fn new(capacity: u64) -> (window: CreditWindow)
        ensures
            window@ == WindowView::fresh(capacity as nat),
    {
        CreditWindow { sent: 0, acknowledged: 0, capacity }
    }

    /// Number of sends counted so far.
    pub fn sent(&self) -> (n: u64)
        ensures
            n == self@.sent,
    {
        self.sent
    }

    /// Number of acknowledgments counted so far.
    pub fn acknowledged(&self) -> (n: u64)
        ensures
            n == self@.acknowledged,
    {
        self.acknowledged
    }

    /// The most sends that may be unacknowledged at one time.
    pub fn capacity(&self) -> (n: u64)
        ensures
            n == self@.capacity,
    {
        self.capacity
    }

    /// Number of sends that are not acknowledged yet. The window is within
    /// its bounds, as every window is.
    pub fn in_flight(&self) -> (n: u64)
        ensures
            n == self@.in_flight(),
            self@.wf(),
    {
        proof {
            use_type_invariant(self);
        }
        self.sent - self.acknowledged
    }

    /// Whether another send fits into the window.
    pub fn can_send(&self) -> (b: bool)
        ensures
            b == self@.open(),
    {
        proof {
            use_type_invariant(self);
        }
        self.sent - self.acknowledged < self.capacity && self.sent < u64::MAX
    }

    /// Counts one send if the window is open, and refuses it otherwise.
    pub fn try_send(&mut self) -> (admitted: bool)
        ensures
            admitted == old(self)@.open(),
            final(self)@ == old(self)@.send(),
    {
        proof {
            use_type_invariant(&*self);
        }
        if self.sent - self.acknowledged < self.capacity && self.sent < u64::MAX {
            self.sent = self.sent + 1;
            true
        } else {
            false
        }
    }

    /// Counts one acknowledgment if a send is waiting for one; an
    /// acknowledgment that answers no send is not counted.
    pub fn acknowledge(&mut self) -> (counted: bool)
        ensures
            counted == (old(self)@.in_flight() > 0),
            final(self)@ == old(self)@.acknowledge(),
    {
        proof {
            use_type_invariant(&*self);
        }
        if self.acknowledged < self.sent {
            self.acknowledged = self.acknowledged + 1;
            true
        } else {
            false
        }
    }
}

} // verus!
