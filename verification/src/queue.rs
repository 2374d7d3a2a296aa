use vstd::prelude::*;

verus! {

/// Number of slots of the sample queue; `heapless::spsc::Queue` keeps one
/// slot free, so it holds at most one sample less.
pub const QUEUE_SLOTS: usize = 8;

/// Most samples the queue holds at once.
pub const QUEUE_CAPACITY: usize = 7;

/// The single-producer single-consumer ring buffer of the `heapless` crate.
#[verifier::external_type_specification]
#[verifier::external_body]
#[verifier::reject_recursive_types(T)]
pub struct ExSpscQueue<T, const N: usize>(heapless::spsc::Queue<T, N>);

/// The samples a queue holds, oldest first.
pub uninterp spec fn queue_items(q: heapless::spsc::Queue<(i16, i16, i16), 8>) -> Seq<(i16, i16, i16)>;

/// `heapless::spsc::Queue::new`: claims the new queue is empty.
#[verifier::external_body]
fn spsc_new() -> (q: heapless::spsc::Queue<(i16, i16, i16), 8>)
    ensures
        queue_items(q) == Seq::<(i16, i16, i16)>::empty(),
{
    heapless::spsc::Queue::new()
}

/// `heapless::spsc::Queue::enqueue`: claims that with fewer than seven
/// samples held the sample is appended at the back, that otherwise the
/// queue is left as it was and the sample handed back, and that the call
/// does not panic.
#[verifier::external_body]
fn spsc_enqueue(q: &mut heapless::spsc::Queue<(i16, i16, i16), 8>, s: (i16, i16, i16)) -> (r: Result<
    (),
    (i16, i16, i16),
>)
    ensures
        match r {
            Ok(_) => queue_items(*old(q)).len() < QUEUE_CAPACITY && queue_items(*final(q))
                == queue_items(*old(q)).push(s),
            Err(back) => queue_items(*old(q)).len() >= QUEUE_CAPACITY && back == s && queue_items(
                *final(q),
            ) == queue_items(*old(q)),
        },
    no_unwind
{
    q.enqueue(s)
}

/// `heapless::spsc::Queue::dequeue`: claims it removes and returns the
/// oldest sample, or returns `None` and leaves an empty queue as it was,
/// and that the call does not panic.
#[verifier::external_body]
fn spsc_dequeue(q: &mut heapless::spsc::Queue<(i16, i16, i16), 8>) -> (r: Option<(i16, i16, i16)>)
    ensures
        match r {
            Some(s) => queue_items(*old(q)).len() > 0 && s == queue_items(*old(q))[0]
                && queue_items(*final(q)) == queue_items(*old(q)).drop_first(),
            None => queue_items(*old(q)).len() == 0 && queue_items(*final(q)) == queue_items(
                *old(q),
            ),
        },
    no_unwind
{
    q.dequeue()
}

/// The bounded queue of raw accelerometer samples `(x, y, z)` between the
/// sampling task and the sending task. A sample that finds it full is
/// dropped.
pub struct SampleQueue {
    queue: heapless::spsc::Queue<(i16, i16, i16), 8>,
}

impl View for SampleQueue {
    type V = Seq<(i16, i16, i16)>;

    closed spec fn view(&self) -> Seq<(i16, i16, i16)> {
        queue_items(self.queue)
    }
}

impl SampleQueue {
    #[verifier::type_invariant]
    spec fn inv(self) -> bool {
        queue_items(self.queue).len() <= QUEUE_CAPACITY
    }

    /// An empty queue.
    pub fn new() -> (q: SampleQueue)
        ensures
            q@ == Seq::<(i16, i16, i16)>::empty(),
    {
        SampleQueue { queue: spsc_new() }
    }

    /// Adds a sample at the back; returns whether it was kept. A full queue
    /// drops the sample and stays as it was.
    pub fn push_sample(&mut self, s: (i16, i16, i16)) -> (kept: bool)
        ensures
            kept <==> old(self)@.len() < QUEUE_CAPACITY,
            kept ==> final(self)@ == old(self)@.push(s),
            !kept ==> final(self)@ == old(self)@,
            final(self)@.len() <= QUEUE_CAPACITY,
    {
        proof {
            use_type_invariant(&*self);
        }
        let r = spsc_enqueue(&mut self.queue, s);
        r.is_ok()
    }

    /// Removes and returns the oldest sample, if any.
    pub fn pop_sample(&mut self) -> (r: Option<(i16, i16, i16)>)
        ensures
            old(self)@.len() == 0 ==> r is None && final(self)@ == old(self)@,
            old(self)@.len() > 0 ==> r == Some(old(self)@[0]) && final(self)@ == old(
                self,
            )@.drop_first(),
            old(self)@.len() <= QUEUE_CAPACITY,
    {
        proof {
            use_type_invariant(&*self);
        }
        let r = spsc_dequeue(&mut self.queue);
        proof {
            assert(queue_items(self.queue).len() <= QUEUE_CAPACITY);
        }
        r
    }
}

} // verus!
