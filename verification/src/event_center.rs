use vstd::prelude::*;

use crate::command::Command;
use crate::observer::Observer;

verus! {

/// One registration tracked by an event center: a freshly allocated id, the
/// owned observer, the command that runs when the observer triggers, and
/// whether the command is one-shot (`once`) or persistent.
pub struct Registration<O, C> {
    pub id: u64,
    pub observer: O,
    pub command: C,
    pub once: bool,
}

/// The dispatch scheduler: owns every registration, drives per-tick
/// updates, and broadcasts raw events to all registered observers.
///
/// Registrations are kept in ascending id order; ids are allocated by a
/// counter that only ever increases, so an id is never reused even after
/// its registration is removed. Each registration owns its observer and
/// its command together, so a command whose observer is missing — the one
/// internal-consistency fault the scheduler would otherwise have to fail
/// loudly on — cannot arise by construction.
pub struct EventCenter<O, C> {
    registrations: Vec<Registration<O, C>>,
    count: u64,
}

/// `s` with its first registration carrying id `i` removed; `s` unchanged
/// when no registration carries `i`.
pub open spec fn remove_key<O, C>(s: Seq<Registration<O, C>>, i: u64) -> Seq<Registration<O, C>>
    decreases s.len(),
{
    if s.len() == 0 {
        Seq::empty()
    } else if s[0].id == i {
        s.drop_first()
    } else {
        seq![s[0]] + remove_key(s.drop_first(), i)
    }
}

/// What one tick may do to one registration, as the scheduler sees it.
///
/// With `fired` true: the observer advanced by `dt` into a state whose
/// trigger condition held, the command then ran against the application
/// state, and the observer was reset right after. With `fired` false: the
/// observer advanced by `dt` into a state whose trigger condition did not
/// hold, and neither the command nor the application state was touched.
pub open spec fn reg_tick<O: Observer, C: Command>(
    pre_ob: O,
    pre_cmd: C,
    a0: C::App,
    dt: u64,
    post_ob: O,
    post_cmd: C,
    a1: C::App,
    fired: bool,
) -> bool {
    if fired {
        exists|mid: O|
            {
                &&& #[trigger] O::tick_step(pre_ob, dt, mid)
                &&& mid.ready()
                &&& O::reset_step(mid, post_ob)
                &&& C::effect(pre_cmd, a0, post_cmd, a1)
            }
    } else {
        &&& O::tick_step(pre_ob, dt, post_ob)
        &&& !post_ob.ready()
        &&& post_cmd == pre_cmd
        &&& a1 == a0
    }
}

/// The persistent phase visits exactly the persistent registrations: a
/// one-shot registration is left alone (and the application state with
/// it), a persistent one goes through `reg_tick`.
pub open spec fn persistent_entry_tick<O: Observer, C: Command>(
    pre: Registration<O, C>,
    a0: C::App,
    dt: u64,
    post: Registration<O, C>,
    a1: C::App,
    fired: bool,
) -> bool {
    &&& post.id == pre.id
    &&& post.once == pre.once
    &&& if pre.once {
        post == pre && a1 == a0 && !fired
    } else {
        reg_tick(pre.observer, pre.command, a0, dt, post.observer, post.command, a1, fired)
    }
}

/// The one-shot phase mirrors the persistent one: a persistent
/// registration is left alone, a one-shot one goes through `reg_tick`.
pub open spec fn oneshot_entry_tick<O: Observer, C: Command>(
    pre: Registration<O, C>,
    a0: C::App,
    dt: u64,
    post: Registration<O, C>,
    a1: C::App,
    fired: bool,
) -> bool {
    &&& post.id == pre.id
    &&& post.once == pre.once
    &&& if !pre.once {
        post == pre && a1 == a0 && !fired
    } else {
        reg_tick(pre.observer, pre.command, a0, dt, post.observer, post.command, a1, fired)
    }
}

/// `s` without the positions that are flagged in `dropped`.
pub open spec fn drop_flagged<T>(s: Seq<T>, dropped: Seq<bool>) -> Seq<T>
    decreases s.len(),
{
    if s.len() == 0 {
        Seq::empty()
    } else {
        drop_flagged(s.drop_last(), dropped.drop_last()) + if dropped[s.len() - 1] {
            Seq::empty()
        } else {
            seq![s.last()]
        }
    }
}

/// A complete run of the persistent phase, with its witnesses laid open:
/// `apps` is the chain of application states threaded through the
/// registrations in ascending id order (`apps[k]` before the `k`-th
/// registration was visited), and `fired[k]` says whether the `k`-th
/// command ran.
pub open spec fn persistent_run<O: Observer, C: Command>(
    pre: Seq<Registration<O, C>>,
    a0: C::App,
    dt: u64,
    post: Seq<Registration<O, C>>,
    a1: C::App,
    apps: Seq<C::App>,
    fired: Seq<bool>,
) -> bool {
    &&& post.len() == pre.len()
    &&& apps.len() == pre.len() + 1
    &&& fired.len() == pre.len()
    &&& apps[0] == a0
    &&& apps[pre.len() as int] == a1
    &&& forall|k: int|
        0 <= k < pre.len() ==> #[trigger] persistent_entry_tick(
            pre[k],
            apps[k],
            dt,
            post[k],
            apps[k + 1],
            fired[k],
        )
}

/// The persistent phase: every persistent registration was visited once,
/// in ascending id order, through `reg_tick`; one-shot registrations and
/// the set of ids were left alone.
pub open spec fn persistent_phase<O: Observer, C: Command>(
    pre: Seq<Registration<O, C>>,
    a0: C::App,
    dt: u64,
    post: Seq<Registration<O, C>>,
    a1: C::App,
) -> bool {
    exists|apps: Seq<C::App>, fired: Seq<bool>|
        #[trigger] persistent_run(pre, a0, dt, post, a1, apps, fired)
}

/// A complete run of the one-shot phase, with its witnesses laid open:
/// the one-shot registrations were first visited in ascending id order
/// (`stepped` is the sequence right after that traversal), and then the
/// registrations whose command fired were removed, all after the
/// traversal had completed.
pub open spec fn oneshot_run<O: Observer, C: Command>(
    pre: Seq<Registration<O, C>>,
    a0: C::App,
    dt: u64,
    post: Seq<Registration<O, C>>,
    a1: C::App,
    stepped: Seq<Registration<O, C>>,
    apps: Seq<C::App>,
    fired: Seq<bool>,
) -> bool {
    &&& stepped.len() == pre.len()
    &&& apps.len() == pre.len() + 1
    &&& fired.len() == pre.len()
    &&& apps[0] == a0
    &&& apps[pre.len() as int] == a1
    &&& forall|k: int|
        0 <= k < pre.len() ==> #[trigger] oneshot_entry_tick(
            pre[k],
            apps[k],
            dt,
            stepped[k],
            apps[k + 1],
            fired[k],
        )
    &&& post == drop_flagged(stepped, fired)
}

/// The one-shot phase: every one-shot registration was visited once, in
/// ascending id order, through `reg_tick`, and exactly those whose
/// command fired were removed afterwards; persistent registrations were
/// left alone.
pub open spec fn oneshot_phase<O: Observer, C: Command>(
    pre: Seq<Registration<O, C>>,
    a0: C::App,
    dt: u64,
    post: Seq<Registration<O, C>>,
    a1: C::App,
) -> bool {
    exists|stepped: Seq<Registration<O, C>>, apps: Seq<C::App>, fired: Seq<bool>|
        #[trigger] oneshot_run(pre, a0, dt, post, a1, stepped, apps, fired)
}

/// One whole scheduler tick: the persistent phase over the starting
/// state, then the one-shot phase over what the persistent phase left.
pub open spec fn update_tick<O: Observer, C: Command>(
    pre: Seq<Registration<O, C>>,
    a0: C::App,
    dt: u64,
    post: Seq<Registration<O, C>>,
    a1: C::App,
) -> bool {
    exists|mid: Seq<Registration<O, C>>, mid_app: C::App|
        #![trigger persistent_phase(pre, a0, dt, mid, mid_app)]
        persistent_phase(pre, a0, dt, mid, mid_app) && oneshot_phase(mid, mid_app, dt, post, a1)
}

/// Removing the registration that carries `i` at position `idx` is the
/// same as `remove_key`, provided no earlier position carries `i`.
proof fn lemma_remove_key_at<O, C>(s: Seq<Registration<O, C>>, i: u64, idx: int)
    requires
        0 <= idx < s.len(),
        s[idx].id == i,
        forall|k: int| 0 <= k < idx ==> s[k].id != i,
    ensures
        remove_key(s, i) == s.remove(idx),
    decreases idx,
{
    if idx == 0 {
        assert(s.drop_first() =~= s.remove(0));
    } else {
        lemma_remove_key_at(s.drop_first(), i, idx - 1);
        assert(seq![s[0]] + s.drop_first().remove(idx - 1) =~= s.remove(idx));
    }
}

/// `remove_key` leaves a sequence unchanged when no registration carries
/// the id.
proof fn lemma_remove_key_absent<O, C>(s: Seq<Registration<O, C>>, i: u64)
    requires
        forall|k: int| 0 <= k < s.len() ==> (#[trigger] s[k]).id != i,
    ensures
        remove_key(s, i) == s,
    decreases s.len(),
{
    if s.len() > 0 {
        lemma_remove_key_absent(s.drop_first(), i);
        assert(seq![s[0]] + s.drop_first() =~= s);
    }
}

/// A position that is not flagged survives `drop_flagged`.
proof fn lemma_drop_flagged_keeps<T>(s: Seq<T>, dropped: Seq<bool>, j: int)
    requires
        dropped.len() == s.len(),
        0 <= j < s.len(),
        !dropped[j],
    ensures
        drop_flagged(s, dropped).contains(s[j]),
    decreases s.len(),
{
    let out = drop_flagged(s, dropped);
    let head = drop_flagged(s.drop_last(), dropped.drop_last());
    if j == s.len() - 1 {
        assert(out[head.len() as int] == s[j]);
    } else {
        lemma_drop_flagged_keeps(s.drop_last(), dropped.drop_last(), j);
        let w = choose|w: int| 0 <= w < head.len() && head[w] == s.drop_last()[j];
        assert(out[w] == s[j]);
    }
}

/// Everything `drop_flagged` returns stood in the sequence it was given.
proof fn lemma_drop_flagged_from<T>(s: Seq<T>, dropped: Seq<bool>, k: int)
    requires
        dropped.len() == s.len(),
        0 <= k < drop_flagged(s, dropped).len(),
    ensures
        exists|j: int| 0 <= j < s.len() && drop_flagged(s, dropped)[k] == s[j],
    decreases s.len(),
{
    let out = drop_flagged(s, dropped);
    let head = drop_flagged(s.drop_last(), dropped.drop_last());
    if k < head.len() {
        lemma_drop_flagged_from(s.drop_last(), dropped.drop_last(), k);
        let j = choose|j: int| 0 <= j < s.drop_last().len() && head[k] == s.drop_last()[j];
        assert(out[k] == s[j]);
    } else {
        assert(out[k] == s[s.len() - 1]);
    }
}

/// The registration at position `k` of `post` continues one of `pre`:
/// some registration of `pre` carried the same id and one-shot flag.
pub open spec fn continues_one_of<O, C>(
    pre: Seq<Registration<O, C>>,
    post: Seq<Registration<O, C>>,
    k: int,
) -> bool {
    exists|j: int|
        0 <= j < pre.len() && (#[trigger] pre[j]).id == post[k].id && pre[j].once == post[k].once
}

/// The persistent registration at position `j` of `pre` survives into
/// `post` under its id.
pub open spec fn survives_in<O, C>(
    pre: Seq<Registration<O, C>>,
    post: Seq<Registration<O, C>>,
    j: int,
) -> bool {
    exists|k: int| 0 <= k < post.len() && (#[trigger] post[k]).id == pre[j].id && !post[k].once
}

/// What one whole tick does to the set of registrations: every surviving
/// registration continues one that stood there before the tick, under
/// the same id and one-shot flag, and every persistent registration
/// survives the tick. (Only a one-shot registration whose command fired
/// can disappear.)
pub proof fn lemma_update_tick_ids<O: Observer, C: Command>(
    pre: Seq<Registration<O, C>>,
    a0: C::App,
    dt: u64,
    post: Seq<Registration<O, C>>,
    a1: C::App,
)
    requires
        update_tick(pre, a0, dt, post, a1),
    ensures
        forall|k: int| 0 <= k < post.len() ==> #[trigger] continues_one_of(pre, post, k),
        forall|j: int|
            0 <= j < pre.len() && !(#[trigger] pre[j]).once ==> survives_in(pre, post, j),
{
    let (mid, mid_app) = choose|mid: Seq<Registration<O, C>>, mid_app: C::App|
        #![trigger persistent_phase(pre, a0, dt, mid, mid_app)]
        persistent_phase(pre, a0, dt, mid, mid_app) && oneshot_phase(mid, mid_app, dt, post, a1);
    let (apps1, fired1) = choose|apps1: Seq<C::App>, fired1: Seq<bool>|
        #[trigger] persistent_run(pre, a0, dt, mid, mid_app, apps1, fired1);
    let (stepped, apps2, fired2) = choose|
        stepped: Seq<Registration<O, C>>,
        apps2: Seq<C::App>,
        fired2: Seq<bool>,
    |
        #[trigger] oneshot_run(mid, mid_app, dt, post, a1, stepped, apps2, fired2);
    assert forall|k: int| 0 <= k < post.len() implies #[trigger] continues_one_of(
        pre,
        post,
        k,
    ) by {
        lemma_drop_flagged_from(stepped, fired2, k);
        let j = choose|j: int| 0 <= j < stepped.len() && post[k] == stepped[j];
        assert(oneshot_entry_tick(mid[j], apps2[j], dt, stepped[j], apps2[j + 1], fired2[j]));
        assert(persistent_entry_tick(pre[j], apps1[j], dt, mid[j], apps1[j + 1], fired1[j]));
        assert(pre[j].id == post[k].id && pre[j].once == post[k].once);
    }
    assert forall|j: int|
        0 <= j < pre.len() && !(#[trigger] pre[j]).once implies survives_in(pre, post, j) by {
        assert(persistent_entry_tick(pre[j], apps1[j], dt, mid[j], apps1[j + 1], fired1[j]));
        assert(oneshot_entry_tick(mid[j], apps2[j], dt, stepped[j], apps2[j + 1], fired2[j]));
        assert(!fired2[j]);
        lemma_drop_flagged_keeps(stepped, fired2, j);
        let k = choose|k: int| 0 <= k < post.len() && post[k] == stepped[j];
        assert(post[k].id == pre[j].id && !post[k].once);
    }
}

/// Ids are unique and strictly increasing across the lifetime of a
/// center: in ascending registration order the ids grow strictly, and so
/// are pairwise distinct.
pub proof fn lemma_ids_strictly_increasing<O, C>(c: EventCenter<O, C>)
    requires
        c.wf(),
    ensures
        forall|j: int, k: int| 0 <= j < k < c.ids().len() ==> c.ids()[j] < c.ids()[k],
        forall|j: int, k: int|
            0 <= j < c.ids().len() && 0 <= k < c.ids().len() && j != k ==> c.ids()[j] != c.ids()[k],
{
    assert forall|j: int, k: int| 0 <= j < k < c.ids().len() implies c.ids()[j] < c.ids()[k] by {
        assert(c.regs()[j].id < c.regs()[k].id);
    }
}

/// Ids are never reused: every registered id lies below the id counter,
/// so the id the next registration will receive is registered nowhere,
/// however many registrations were added or removed before.
pub proof fn lemma_next_id_fresh<O, C>(c: EventCenter<O, C>)
    requires
        c.wf(),
    ensures
        forall|k: int| 0 <= k < c.regs().len() ==> (#[trigger] c.regs()[k]).id < c.next_id(),
        !c.holds_id(c.next_id()),
{
    assert forall|k: int| 0 <= k < c.ids().len() implies c.ids()[k] != c.next_id() by {
        assert(c.regs()[k].id < c.next_id());
    }
}

/// Appending a registration with a fresh id (at least every id already
/// present, and below the new counter) keeps the id order strict and the
/// ids bounded by the counter.
proof fn lemma_push_keeps_wf<O, C>(
    pre: Seq<Registration<O, C>>,
    post: Seq<Registration<O, C>>,
    i: u64,
    next: u64,
)
    requires
        forall|j: int, k: int| 0 <= j < k < pre.len() ==> pre[j].id < pre[k].id,
        forall|j: int| 0 <= j < pre.len() ==> (#[trigger] pre[j]).id < i,
        i < next,
        post.len() == pre.len() + 1,
        forall|j: int| 0 <= j < pre.len() ==> post[j] == pre[j],
        post[pre.len() as int].id == i,
    ensures
        forall|j: int, k: int| 0 <= j < k < post.len() ==> post[j].id < post[k].id,
        forall|j: int| 0 <= j < post.len() ==> (#[trigger] post[j]).id < next,
{
}

impl<O, C> EventCenter<O, C> {
    /// The registrations, in ascending id order.
    pub closed spec fn regs(self) -> Seq<Registration<O, C>> {
        self.registrations@
    }

    /// The id the next registration will receive.
    pub closed spec fn next_id(self) -> u64 {
        self.count
    }

    /// The ids currently registered, in ascending order.
    pub open spec fn ids(self) -> Seq<u64> {
        self.regs().map_values(|r: Registration<O, C>| r.id)
    }

    /// Whether an id is currently registered.
    pub open spec fn holds_id(self, i: u64) -> bool {
        self.ids().contains(i)
    }

    /// Well-formedness: ids are strictly increasing along the registration
    /// sequence, and every id was allocated below the counter.
    pub open spec fn wf(self) -> bool {
        &&& forall|j: int, k: int|
            0 <= j < k < self.regs().len() ==> self.regs()[j].id < self.regs()[k].id
        &&& forall|j: int| 0 <= j < self.regs().len() ==> (#[trigger] self.regs()[j]).id < self.next_id()
    }

    /// Returns a new, empty event center.
    pub fn new() -> (r: Self)
        ensures
            r.wf(),
            r.regs() == Seq::<Registration<O, C>>::empty(),
            r.next_id() == 0,
    {
        EventCenter { registrations: Vec::new(), count: 0 }
    }

    /// Allocates a fresh id: the current counter value, never handed out
    /// before.
    fn get_empty_id(&mut self) -> (i: u64)
        requires
            old(self).count < u64::MAX,
        ensures
            i == old(self).count,
            final(self).count == old(self).count + 1,
            final(self).registrations == old(self).registrations,
    {
        self.count = self.count + 1;
        self.count - 1
    }

    /// Registers `ob` and `command` under a freshly allocated id and
    /// returns that id. The command will run on every tick on which the
    /// observer triggers, for as long as the registration exists.
    pub fn add_observer_call(&mut self, ob: O, command: C) -> (i: u64)
        requires
            old(self).wf(),
            old(self).next_id() < u64::MAX,
        ensures
            final(self).wf(),
            i == old(self).next_id(),
            final(self).next_id() == old(self).next_id() + 1,
            final(self).regs() == old(self).regs().push(
                Registration { id: i, observer: ob, command, once: false },
            ),
    {
        let i = self.get_empty_id();
        self.registrations.push(Registration { id: i, observer: ob, command, once: false });
        proof {
            lemma_push_keeps_wf(old(self).regs(), self.regs(), i, self.next_id());
        }
        i
    }

    /// Registers `ob` and `command` under a freshly allocated id and
    /// returns that id. The command will run at most once; the whole
    /// registration is removed right after that single run.
    pub fn add_observer_call_once(&mut self, ob: O, command: C) -> (i: u64)
        requires
            old(self).wf(),
            old(self).next_id() < u64::MAX,
        ensures
            final(self).wf(),
            i == old(self).next_id(),
            final(self).next_id() == old(self).next_id() + 1,
            final(self).regs() == old(self).regs().push(
                Registration { id: i, observer: ob, command, once: true },
            ),
    {
        let i = self.get_empty_id();
        self.registrations.push(Registration { id: i, observer: ob, command, once: true });
        proof {
            lemma_push_keeps_wf(old(self).regs(), self.regs(), i, self.next_id());
        }
        i
    }

    /// Whether an observer is currently registered under `i`.
    pub fn has_observer(&self, i: u64) -> (r: bool)
        ensures
            r == self.holds_id(i),
    {
        let n = self.registrations.len();
        let mut idx: usize = 0;
        while idx < n
            invariant
                n == self.registrations.len(),
                idx <= n,
                forall|k: int| 0 <= k < idx ==> (#[trigger] self.registrations@[k]).id != i,
            decreases n - idx,
        {
            if self.registrations[idx].id == i {
                proof {
                    assert(self.ids()[idx as int] == i);
                }
                return true;
            }
            idx = idx + 1;
        }
        proof {
            assert forall|k: int| 0 <= k < self.ids().len() implies self.ids()[k] != i by {
                assert(self.registrations@[k].id != i);
            }
        }
        false
    }

    /// Removes the observer and its command for `i`, so that it is never
    /// triggered again. A no-op (not an error) when `i` is absent, which
    /// makes cleanup idempotent; the id counter is untouched either way,
    /// so removal never changes which ids are allocated later.
    pub fn remove_observer(&mut self, i: u64)
        requires
            old(self).wf(),
        ensures
            final(self).wf(),
            final(self).next_id() == old(self).next_id(),
            final(self).regs() == remove_key(old(self).regs(), i),
            !old(self).holds_id(i) ==> final(self).regs() == old(self).regs(),
    {
        let n = self.registrations.len();
        let mut idx: usize = 0;
        while idx < n
            invariant
                n == self.registrations.len(),
                idx <= n,
                *self == *old(self),
                old(self).wf(),
                forall|k: int| 0 <= k < idx ==> (#[trigger] self.registrations@[k]).id != i,
            decreases n - idx,
        {
            if self.registrations[idx].id == i {
                proof {
                    lemma_remove_key_at(self.registrations@, i, idx as int);
                    assert(old(self).ids()[idx as int] == i);
                    assert(old(self).holds_id(i));
                }
                self.registrations.remove(idx);
                proof {
                    let pre = old(self).regs();
                    let post = self.regs();
                    pre.remove_ensures(idx as int);
                    assert(forall|j: int| 0 <= j < idx ==> #[trigger] post[j] == pre[j]);
                    assert(forall|j: int| idx <= j < post.len() ==> #[trigger] post[j] == pre[j + 1]);
                    assert forall|j: int, k: int| 0 <= j < k < post.len() implies post[j].id
                        < post[k].id by {
                        let jj: int = if j < idx { j } else { j + 1 };
                        let kk: int = if k < idx { k } else { k + 1 };
                        assert(post[j] == pre[jj]);
                        assert(post[k] == pre[kk]);
                        assert(pre[jj].id < pre[kk].id);
                    }
                    assert forall|j: int| 0 <= j < post.len() implies (#[trigger] post[j]).id
                        < self.next_id() by {
                        let jj: int = if j < idx { j } else { j + 1 };
                        assert(post[j] == pre[jj]);
                        assert(pre[jj].id < old(self).next_id());
                    }
                }
                return ;
            }
            idx = idx + 1;
        }
        proof {
            lemma_remove_key_absent(self.registrations@, i);
        }
    }
}

impl<O: Observer, C: Command> EventCenter<O, C> {
    /// The persistent phase of one tick: visits each persistent
    /// registration in ascending id order, advances its observer by `dt`,
    /// and, when the observer then triggers, runs its command against
    /// `app` and resets the observer. Nothing is ever removed here.
    fn update_observers_with_commands_call(&mut self, app: &mut C::App, dt: u64)
        requires
            old(self).wf(),
        ensures
            final(self).wf(),
            final(self).next_id() == old(self).next_id(),
            persistent_phase(old(self).regs(), *old(app), dt, final(self).regs(), *final(app)),
    {
        let ghost regs0 = self.registrations@;
        let ghost app0 = *app;
        let ghost mut apps: Seq<C::App> = seq![*app];
        let ghost mut fired: Seq<bool> = Seq::empty();
        let n = self.registrations.len();
        let mut idx: usize = 0;
        while idx < n
            invariant
                old(self).wf(),
                n == self.registrations.len(),
                regs0 == old(self).regs(),
                regs0.len() == n,
                idx <= n,
                self.count == old(self).count,
                apps.len() == idx + 1,
                fired.len() == idx,
                apps[0] == app0,
                apps[idx as int] == *app,
                forall|k: int| idx <= k < n ==> self.registrations@[k] == regs0[k],
                forall|k: int|
                    0 <= k < idx ==> #[trigger] persistent_entry_tick(
                        regs0[k],
                        apps[k],
                        dt,
                        self.registrations@[k],
                        apps[k + 1],
                        fired[k],
                    ),
            decreases n - idx,
        {
            if self.registrations[idx].once {
                proof {
                    apps = apps.push(*app);
                    fired = fired.push(false);
                }
            } else {
                let r = &mut self.registrations[idx];
                r.observer.update(dt);
                if r.observer.can_trigger() {
                    r.command.call(app);
                    r.observer.after_trigger();
                    proof {
                        apps = apps.push(*app);
                        fired = fired.push(true);
                    }
                } else {
                    proof {
                        apps = apps.push(*app);
                        fired = fired.push(false);
                    }
                }
            }
            idx = idx + 1;
        }
        proof {
            assert(persistent_run(regs0, app0, dt, self.registrations@, *app, apps, fired));
            assert forall|j: int, k: int|
                0 <= j < k < self.regs().len() implies self.regs()[j].id < self.regs()[k].id by {
                assert(persistent_entry_tick(
                    regs0[j],
                    apps[j],
                    dt,
                    self.registrations@[j],
                    apps[j + 1],
                    fired[j],
                ));
                assert(persistent_entry_tick(
                    regs0[k],
                    apps[k],
                    dt,
                    self.registrations@[k],
                    apps[k + 1],
                    fired[k],
                ));
                assert(regs0[j].id < regs0[k].id);
            }
            assert forall|j: int|
                0 <= j < self.regs().len() implies (#[trigger] self.regs()[j]).id
                < self.next_id() by {
                assert(persistent_entry_tick(
                    regs0[j],
                    apps[j],
                    dt,
                    self.registrations@[j],
                    apps[j + 1],
                    fired[j],
                ));
                assert(regs0[j].id < old(self).next_id());
            }
        }
    }
    /// The one-shot phase of one tick: visits each one-shot registration
    /// in ascending id order with the same per-registration logic as the
    /// persistent phase, but flags the registrations whose command fired
    /// as pending removal instead of removing them mid-traversal; once
    /// the traversal has completed, every flagged registration is
    /// removed.
    fn update_observers_with_commands_call_once(&mut self, app: &mut C::App, dt: u64)
        requires
            old(self).wf(),
        ensures
            final(self).wf(),
            final(self).next_id() == old(self).next_id(),
            oneshot_phase(old(self).regs(), *old(app), dt, final(self).regs(), *final(app)),
    {
        let ghost regs0 = self.registrations@;
        let ghost app0 = *app;
        let ghost mut apps: Seq<C::App> = seq![*app];
        let ghost mut fired: Seq<bool> = Seq::empty();
        let mut pending_removal: Vec<bool> = Vec::new();
        let n = self.registrations.len();
        let mut idx: usize = 0;
        while idx < n
            invariant
                old(self).wf(),
                n == self.registrations.len(),
                regs0 == old(self).regs(),
                regs0.len() == n,
                idx <= n,
                self.count == old(self).count,
                apps.len() == idx + 1,
                fired.len() == idx,
                pending_removal@ == fired,
                apps[0] == app0,
                apps[idx as int] == *app,
                forall|k: int| idx <= k < n ==> self.registrations@[k] == regs0[k],
                forall|k: int|
                    0 <= k < idx ==> #[trigger] oneshot_entry_tick(
                        regs0[k],
                        apps[k],
                        dt,
                        self.registrations@[k],
                        apps[k + 1],
                        fired[k],
                    ),
            decreases n - idx,
        {
            if !self.registrations[idx].once {
                pending_removal.push(false);
                proof {
                    apps = apps.push(*app);
                    fired = fired.push(false);
                }
            } else {
                let r = &mut self.registrations[idx];
                r.observer.update(dt);
                if r.observer.can_trigger() {
                    r.command.call(app);
                    r.observer.after_trigger();
                    pending_removal.push(true);
                    proof {
                        apps = apps.push(*app);
                        fired = fired.push(true);
                    }
                } else {
                    pending_removal.push(false);
                    proof {
                        apps = apps.push(*app);
                        fired = fired.push(false);
                    }
                }
            }
            idx = idx + 1;
        }
        let ghost stepped = self.registrations@;
        proof {
            assert forall|j: int, k: int| 0 <= j < k < n implies stepped[j].id < stepped[k].id by {
                assert(oneshot_entry_tick(
                    regs0[j],
                    apps[j],
                    dt,
                    stepped[j],
                    apps[j + 1],
                    fired[j],
                ));
                assert(oneshot_entry_tick(
                    regs0[k],
                    apps[k],
                    dt,
                    stepped[k],
                    apps[k + 1],
                    fired[k],
                ));
                assert(regs0[j].id < regs0[k].id);
            }
            assert forall|j: int| 0 <= j < n implies (#[trigger] stepped[j]).id
                < old(self).next_id() by {
                assert(oneshot_entry_tick(
                    regs0[j],
                    apps[j],
                    dt,
                    stepped[j],
                    apps[j + 1],
                    fired[j],
                ));
                assert(regs0[j].id < old(self).next_id());
            }
        }
        let mut kept: Vec<Registration<O, C>> = Vec::new();
        let mut p: usize = 0;
        while p < n
            invariant
                n == stepped.len(),
                fired.len() == n,
                pending_removal@ == fired,
                pending_removal.len() == n,
                p <= n,
                self.count == old(self).count,
                self.registrations@ == stepped.subrange(p as int, n as int),
                kept@ == drop_flagged(stepped.take(p as int), fired.take(p as int)),
                forall|j: int, k: int| 0 <= j < k < n ==> stepped[j].id < stepped[k].id,
                forall|j: int| 0 <= j < n ==> (#[trigger] stepped[j]).id < old(self).next_id(),
                forall|i: int, j: int| 0 <= i < j < kept@.len() ==> kept@[i].id < kept@[j].id,
                forall|i: int, q: int|
                    0 <= i < kept@.len() && p <= q < n ==> (#[trigger] kept@[i]).id < (
                    #[trigger] stepped[q]).id,
                forall|i: int| 0 <= i < kept@.len() ==> (#[trigger] kept@[i]).id < old(
                    self,
                ).next_id(),
            decreases n - p,
        {
            let r = self.registrations.remove(0);
            proof {
                assert(r == stepped.subrange(p as int, n as int)[0]);
                assert(r == stepped[p as int]);
                assert(stepped.subrange(p as int, n as int).remove(0) =~= stepped.subrange(
                    p as int + 1,
                    n as int,
                ));
            }
            if !pending_removal[p] {
                kept.push(r);
            }
            proof {
                assert(stepped.take(p as int + 1).drop_last() =~= stepped.take(p as int));
                assert(fired.take(p as int + 1).drop_last() =~= fired.take(p as int));
                assert(stepped.take(p as int + 1).last() == stepped[p as int]);
                assert(kept@ == drop_flagged(
                    stepped.take(p as int + 1),
                    fired.take(p as int + 1),
                ));
            }
            p = p + 1;
        }
        proof {
            assert(stepped.take(n as int) =~= stepped);
            assert(fired.take(n as int) =~= fired);
        }
        self.registrations = kept;
        proof {
            assert(oneshot_run(regs0, app0, dt, self.registrations@, *app, stepped, apps, fired));
        }
    }

    /// Advances the scheduler by one tick: first the persistent phase,
    /// then the one-shot phase, each visiting its registrations in
    /// ascending id order. May run any number of registered commands
    /// against `app` and removes exactly the one-shot registrations whose
    /// command fired; the id counter never changes here.
    pub fn update(&mut self, app: &mut C::App, dt: u64)
        requires
            old(self).wf(),
        ensures
            final(self).wf(),
            final(self).next_id() == old(self).next_id(),
            update_tick(old(self).regs(), *old(app), dt, final(self).regs(), *final(app)),
    {
        self.update_observers_with_commands_call(app, dt);
        let ghost mid = self.regs();
        let ghost mid_app = *app;
        self.update_observers_with_commands_call_once(app, dt);
        proof {
            assert(persistent_phase(old(self).regs(), *old(app), dt, mid, mid_app));
            assert(oneshot_phase(mid, mid_app, dt, self.regs(), *app));
        }
    }

    /// Delivers a raw event to every currently registered observer's
    /// `on_event`, in ascending id order, each exactly once, regardless of
    /// trigger state. Pure fan-out: the registrations themselves (ids,
    /// commands, one-shot flags) and the id counter are untouched.
    pub fn receive_event(&mut self, e: &O::Ev)
        requires
            old(self).wf(),
        ensures
            final(self).wf(),
            final(self).next_id() == old(self).next_id(),
            final(self).regs().len() == old(self).regs().len(),
            forall|k: int|
                0 <= k < old(self).regs().len() ==> {
                    let pre = #[trigger] old(self).regs()[k];
                    let post = final(self).regs()[k];
                    &&& post.id == pre.id
                    &&& post.once == pre.once
                    &&& post.command == pre.command
                    &&& O::event_step(pre.observer, *e, post.observer)
                },
    {
        let ghost regs0 = self.registrations@;
        let n = self.registrations.len();
        let mut idx: usize = 0;
        while idx < n
            invariant
                n == self.registrations.len(),
                regs0.len() == n,
                idx <= n,
                self.count == old(self).count,
                forall|k: int| idx <= k < n ==> self.registrations@[k] == regs0[k],
                forall|k: int|
                    0 <= k < idx ==> {
                        let pre = regs0[k];
                        let post = #[trigger] self.registrations@[k];
                        &&& post.id == pre.id
                        &&& post.once == pre.once
                        &&& post.command == pre.command
                        &&& O::event_step(pre.observer, *e, post.observer)
                    },
            decreases n - idx,
        {
            let r = &mut self.registrations[idx];
            r.observer.on_event(e);
            idx = idx + 1;
        }
    }
}

} // verus!
