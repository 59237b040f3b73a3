//! Lifecycle hooks of a download and the container that runs them in order.

use vstd::prelude::*;

verus! {

/// Returned by a hook that stops a download before it starts.
#[derive(Debug, Clone, Copy, PartialEq, Eq, Structural)]
pub struct HookAbort;

/// One recorded hook call: which hook (by registration index), at which
/// lifecycle point, with which arguments, and for `before_start` whether it
/// asked to stop.
pub ghost enum HookEvent {
    BeforeStart { index: nat, aborted: bool },
    OnChunk { index: nat, chunk: Seq<u8> },
    OnProgress { index: nat, bytes_done: u64, total: Option<u64> },
    AfterComplete { index: nat },
}

/// Custom logic run before a download, for each received chunk, on progress,
/// and after completion. Every method has a default that does nothing.
pub trait DownloadHook {
    /// Called before any network request; `Err` stops the download.
    fn before_start(&mut self) -> Result<(), HookAbort> {
        Ok(())
    }

    /// Called with each chunk of received bytes.
    fn on_chunk(&mut self, chunk: &[u8]) {
    }

    /// Called with the bytes done so far and the total size when known.
    fn on_progress(&mut self, bytes_done: u64, total: Option<u64>) {
    }

    /// Called once the download has succeeded.
    fn after_complete(&mut self) {
    }
}

/// The `on_chunk` calls on hooks `0..n`, in registration order, all with `chunk`.
pub open spec fn chunk_calls(n: int, chunk: Seq<u8>) -> Seq<HookEvent> {
    Seq::new(n as nat, |i: int| HookEvent::OnChunk { index: i as nat, chunk })
}

/// The `on_progress` calls on hooks `0..n`, in registration order, all with
/// the same arguments.
pub open spec fn progress_calls(n: int, bytes_done: u64, total: Option<u64>) -> Seq<HookEvent> {
    Seq::new(n as nat, |i: int| HookEvent::OnProgress { index: i as nat, bytes_done, total })
}

/// The `after_complete` calls on hooks `0..n`, in registration order.
pub open spec fn after_calls(n: int) -> Seq<HookEvent> {
    Seq::new(n as nat, |i: int| HookEvent::AfterComplete { index: i as nat })
}

/// Whether a recorded call is a `before_start` that asked to stop.
pub open spec fn aborted(e: HookEvent) -> bool {
    match e {
        HookEvent::BeforeStart { aborted, .. } => aborted,
        _ => false,
    }
}

/// The registration index of a recorded call.
pub open spec fn event_index(e: HookEvent) -> nat {
    match e {
        HookEvent::BeforeStart { index, .. } => index,
        HookEvent::OnChunk { index, .. } => index,
        HookEvent::OnProgress { index, .. } => index,
        HookEvent::AfterComplete { index } => index,
    }
}

/// `calls` is a run of `before_start` over `n` hooks: call `k` went to hook
/// `k`, and every call but the last let the download go on.
pub open spec fn before_start_run(calls: Seq<HookEvent>, n: int) -> bool {
    &&& calls.len() <= n
    &&& forall|k: int| 0 <= k < calls.len() ==> (#[trigger] calls[k]) is BeforeStart && event_index(calls[k]) == k
    &&& forall|k: int| 0 <= k < calls.len() - 1 ==> !aborted(#[trigger] calls[k])
}

/// Hooks in registration order, a cancel flag, and the log of hook calls made.
pub struct DownloadHooksContainer<H: DownloadHook> {
    hooks: Vec<H>,
    cancel_requested: bool,
    calls: Ghost<Seq<HookEvent>>,
}

impl<H: DownloadHook> DownloadHooksContainer<H> {
    /// The registered hooks, in registration order.
    pub closed spec fn hook_seq(&self) -> Seq<H> {
        self.hooks@
    }

    /// Number of registered hooks.
    pub open spec fn len(&self) -> nat {
        self.hook_seq().len()
    }

    /// Whether a cancel has been requested.
    pub closed spec fn cancel_flag(&self) -> bool {
        self.cancel_requested
    }

    /// Every hook call made so far, oldest first.
    pub closed spec fn log(&self) -> Seq<HookEvent> {
        self.calls@
    }

    /// An empty container with no cancel requested.
    pub fn new() -> (r: Self)
        ensures
            r.len() == 0,
            !r.cancel_flag(),
            r.log() == Seq::<HookEvent>::empty(),
    {
        DownloadHooksContainer { hooks: Vec::new(), cancel_requested: false, calls: Ghost(Seq::empty()) }
    }

    /// Registers a hook after those already registered.
    pub fn add(&mut self, hook: H)
        ensures
            final(self).hook_seq() == old(self).hook_seq().push(hook),
            final(self).cancel_flag() == old(self).cancel_flag(),
            final(self).log() == old(self).log(),
    {
        self.hooks.push(hook);
    }

    /// Number of registered hooks.
    pub fn hook_count(&self) -> (r: usize)
        ensures
            r == self.len(),
    {
        self.hooks.len()
    }

    /// Asks the transfer to stop at the next chunk boundary.
    pub fn request_cancel(&mut self)
        ensures
            final(self).cancel_flag(),
            final(self).len() == old(self).len(),
            final(self).log() == old(self).log(),
    {
        self.cancel_requested = true;
    }

    /// Whether a cancel has been requested.
    pub fn cancel_requested(&self) -> (r: bool)
        ensures
            r == self.cancel_flag(),
    {
        self.cancel_requested
    }

    /// Runs `before_start` of each hook in registration order, stopping at the
    /// first that aborts. Each call and its outcome are logged. The result is
    /// `Ok` exactly when no call aborted, and then every hook was called; on
    /// `Err` the last call is the one that aborted.
    pub fn run_before_start(&mut self) -> (r: Result<(), HookAbort>)
        ensures
            final(self).len() == old(self).len(),
            final(self).cancel_flag() == old(self).cancel_flag(),
            old(self).log().is_prefix_of(final(self).log()),
            ({
                let calls = final(self).log().subrange(old(self).log().len() as int, final(self).log().len() as int);
                &&& before_start_run(calls, old(self).len() as int)
                &&& r is Ok <==> forall|k: int| 0 <= k < calls.len() ==> !aborted(#[trigger] calls[k])
                &&& r is Ok ==> calls.len() == old(self).len()
                &&& r is Err ==> calls.len() > 0 && aborted(calls.last())
            }),
    {
        let n = self.hooks.len();
        let mut i: usize = 0;
        let ghost start = self.calls@;
        while i < n
            invariant
                n == self.hooks@.len(),
                0 <= i <= n,
                self.cancel_requested == old(self).cancel_requested,
                n == old(self).hooks@.len(),
                start == old(self).calls@,
                start.is_prefix_of(self.calls@),
                self.calls@.len() == start.len() + i,
                forall|k: int| 0 <= k < i ==> #[trigger] self.calls@[start.len() + k]
                    == (HookEvent::BeforeStart { index: k as nat, aborted: false }),
            decreases n - i,
        {
            let res = self.hooks[i].before_start();
            let ghost stop = res.is_err();
            self.calls = Ghost(self.calls@.push(HookEvent::BeforeStart { index: i as nat, aborted: stop }));
            if res.is_err() {
                proof {
                    let calls = self.calls@.subrange(start.len() as int, self.calls@.len() as int);
                    assert forall|k: int| 0 <= k < calls.len() implies (#[trigger] calls[k]) is BeforeStart
                        && event_index(calls[k]) == k by {
                        assert(calls[k] == self.calls@[start.len() + k]);
                    }
                    assert forall|k: int| 0 <= k < calls.len() - 1 implies !aborted(#[trigger] calls[k]) by {
                        assert(calls[k] == self.calls@[start.len() + k]);
                    }
                    assert(aborted(calls[calls.len() - 1]));
                }
                return Err(HookAbort);
            }
            i = i + 1;
        }
        proof {
            let calls = self.calls@.subrange(start.len() as int, self.calls@.len() as int);
            assert forall|k: int| 0 <= k < calls.len() implies (#[trigger] calls[k]) is BeforeStart
                && event_index(calls[k]) == k && !aborted(calls[k]) by {
                assert(calls[k] == self.calls@[start.len() + k]);
            }
        }
        Ok(())
    }

    /// Runs `on_chunk` of every hook in registration order.
    pub fn run_on_chunk(&mut self, chunk: &[u8])
        ensures
            final(self).len() == old(self).len(),
            final(self).cancel_flag() == old(self).cancel_flag(),
            final(self).log() == old(self).log() + chunk_calls(old(self).len() as int, chunk@),
    {
        let n = self.hooks.len();
        let mut i: usize = 0;
        let ghost start = self.calls@;
        while i < n
            invariant
                n == self.hooks@.len(),
                0 <= i <= n,
                self.cancel_requested == old(self).cancel_requested,
                n == old(self).hooks@.len(),
                self.calls@ == start + chunk_calls(i as int, chunk@),
                start == old(self).calls@,
            decreases n - i,
        {
            self.hooks[i].on_chunk(chunk);
            self.calls = Ghost(self.calls@.push(HookEvent::OnChunk { index: i as nat, chunk: chunk@ }));
            proof {
                assert(chunk_calls(i as int, chunk@).push(HookEvent::OnChunk { index: i as nat, chunk: chunk@ })
                    =~= chunk_calls(i + 1, chunk@));
            }
            i = i + 1;
        }
    }

    /// Runs `on_progress` of every hook in registration order.
    pub fn run_on_progress(&mut self, bytes_done: u64, total: Option<u64>)
        ensures
            final(self).len() == old(self).len(),
            final(self).cancel_flag() == old(self).cancel_flag(),
            final(self).log() == old(self).log() + progress_calls(old(self).len() as int, bytes_done, total),
    {
        let n = self.hooks.len();
        let mut i: usize = 0;
        let ghost start = self.calls@;
        while i < n
            invariant
                n == self.hooks@.len(),
                0 <= i <= n,
                self.cancel_requested == old(self).cancel_requested,
                n == old(self).hooks@.len(),
                self.calls@ == start + progress_calls(i as int, bytes_done, total),
                start == old(self).calls@,
            decreases n - i,
        {
            self.hooks[i].on_progress(bytes_done, total);
            self.calls = Ghost(
                self.calls@.push(HookEvent::OnProgress { index: i as nat, bytes_done, total }),
            );
            proof {
                assert(progress_calls(i as int, bytes_done, total).push(
                    HookEvent::OnProgress { index: i as nat, bytes_done, total },
                ) =~= progress_calls(i + 1, bytes_done, total));
            }
            i = i + 1;
        }
    }

    /// Runs `after_complete` of every hook in registration order.
    pub fn run_after_complete(&mut self)
        ensures
            final(self).len() == old(self).len(),
            final(self).cancel_flag() == old(self).cancel_flag(),
            final(self).log() == old(self).log() + after_calls(old(self).len() as int),
    {
        let n = self.hooks.len();
        let mut i: usize = 0;
        let ghost start = self.calls@;
        while i < n
            invariant
                n == self.hooks@.len(),
                0 <= i <= n,
                self.cancel_requested == old(self).cancel_requested,
                n == old(self).hooks@.len(),
                self.calls@ == start + after_calls(i as int),
                start == old(self).calls@,
            decreases n - i,
        {
            self.hooks[i].after_complete();
            self.calls = Ghost(self.calls@.push(HookEvent::AfterComplete { index: i as nat }));
            proof {
                assert(after_calls(i as int).push(HookEvent::AfterComplete { index: i as nat }) =~= after_calls(
                    i + 1,
                ));
            }
            i = i + 1;
        }
    }
}

impl<H: DownloadHook> Default for DownloadHooksContainer<H> {
    fn default() -> (r: Self)
        ensures
            r.len() == 0,
            !r.cancel_flag(),
            r.log() == Seq::<HookEvent>::empty(),
    {
        DownloadHooksContainer::new()
    }
}

/// Hook ordering: in a run of `before_start`, and in a run of
/// `after_complete` over `n` hooks, the call to hook `i` comes before the
/// call to hook `j` whenever `i` was registered before `j`.
pub proof fn lemma_hook_order(calls: Seq<HookEvent>, n: int, i: int, j: int)
    requires
        0 <= i < j,
    ensures
        before_start_run(calls, n) && j < calls.len() ==> event_index(calls[i]) == i && event_index(
            calls[j],
        ) == j,
        j < n ==> event_index(after_calls(n)[i]) == i && event_index(after_calls(n)[j]) == j,
{
}

} // verus!
