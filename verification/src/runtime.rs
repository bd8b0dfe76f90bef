//! The scheduling decisions of the runtime: when the application is rendered
//! again, what is rendered, and in which order dialogs are shown.
//!
//! Rendering is debounced: an update that invalidates the DOM arms a render
//! timer, unless one is armed already, which limits the frame rate. When the
//! timer fires while the previous frame is still being applied by the
//! frontend, the render is put off a few times before it is made anyway.
use crate::component::{lemma_updated_view, Updated, UpdatedView};
use crate::diff::{blob_ops, full_ops, Differ};
use crate::node::{rendered_as, Node};
use crate::render::{
    all_mounted, component_index, forest, has_id, listed_from, refusal_explained, root_refusal_explained, ComponentRenderer,
    Frame, RenderRefusal, RenderResult,
};
use crate::serialize::{enc_ops, serialize};
use crate::vdom::{strip_trailing_moves, Patch, PatchOp};
use crate::Id;
use std::collections::HashSet;
use vstd::prelude::*;

verus! {

broadcast use vstd::std_specs::hash::group_hash_axioms;

/// Wait time between an update and the render it causes, in milliseconds;
/// this bounds the frame rate.
pub const DEFAULT_RENDER_INTERVAL_MS: u64 = 30;

/// Wait time before a render is tried again while the frontend still applies
/// the previous frame, in milliseconds.
pub const RENDER_RETRY_INTERVAL_MS: u64 = 10;

/// How many times in a row a render is put off while the frontend still
/// applies the previous frame.
pub const MAX_RENDER_DEFERRALS: u32 = 3;

/// How a render is to be made.
#[derive(Debug)]
pub struct RenderPlan {
    /// Render the whole component tree, not only the invalidated components.
    pub from_root: bool,
    /// Diff the new DOM against the frame the frontend shows; otherwise the
    /// patch builds the whole DOM.
    pub diff_against_frame: bool,
    /// The components invalidated since the previous render.
    pub changed: Vec<u64>,
}

/// What the runtime does when the render timer fires.
#[derive(Debug)]
pub enum RenderDecision {
    /// Put the render off: arm the timer again with this many milliseconds.
    Defer(u64),
    /// Render now.
    Render(RenderPlan),
}

/// The state on which the runtime's scheduling decisions rest.
#[derive(Debug)]
pub struct Scheduler {
    render_scheduled: bool,
    invalidate_all: bool,
    invalidated: HashSet<u64>,
    deferred: u32,
    frame_pending: bool,
    frame_current: bool,
}

/// The scheduler taken by its views.
pub struct SchedulerView {
    /// A render timer is armed.
    pub render_scheduled: bool,
    /// The whole application is to be rendered again.
    pub invalidate_all: bool,
    /// The components to be rendered again.
    pub invalidated: Set<u64>,
    /// How many times in a row the render was put off.
    pub deferred: nat,
    /// A patch was sent that the frontend has not reported applied yet.
    pub frame_pending: bool,
    /// The frontend shows a frame that the next render can be diffed against.
    pub frame_current: bool,
}

impl View for Scheduler {
    type V = SchedulerView;

    closed spec fn view(&self) -> SchedulerView {
        SchedulerView {
            render_scheduled: self.render_scheduled,
            invalidate_all: self.invalidate_all,
            invalidated: self.invalidated@,
            deferred: self.deferred as nat,
            frame_pending: self.frame_pending,
            frame_current: self.frame_current,
        }
    }
}

/// The renders put off in a row never exceed the limit.
pub open spec fn scheduler_wf(s: SchedulerView) -> bool {
    s.deferred <= MAX_RENDER_DEFERRALS
}

/// Arming the render timer: nothing happens while a timer is armed already;
/// otherwise a timer of `ms` milliseconds is armed.
pub open spec fn after_schedule(s: SchedulerView, ms: u64) -> (SchedulerView, Option<u64>) {
    if s.render_scheduled {
        (s, None)
    } else {
        (SchedulerView { render_scheduled: true, ..s }, Some(ms))
    }
}

/// The ids of the components invalidated by an update.
pub open spec fn invalidated_by(u: UpdatedView) -> Set<u64> {
    match u.components {
        Some(c) => c.map_values(|id: Id| id@).to_set(),
        None => Set::empty(),
    }
}

/// An update of the application: a full re-render or invalidated components
/// are recorded, and the render timer is armed.
pub open spec fn after_update(s: SchedulerView, u: UpdatedView) -> (SchedulerView, Option<u64>) {
    if u.should_render {
        after_schedule(SchedulerView { invalidate_all: true, ..s }, DEFAULT_RENDER_INTERVAL_MS)
    } else if u.components is Some {
        after_schedule(
            SchedulerView { invalidated: s.invalidated.union(invalidated_by(u)), ..s },
            DEFAULT_RENDER_INTERVAL_MS,
        )
    } else {
        (s, None)
    }
}

/// The render is put off when the frontend still applies a frame, shows none
/// to diff against, and the render was not put off too often already.
pub open spec fn defers(s: SchedulerView) -> bool {
    s.frame_pending && !s.frame_current && s.deferred < MAX_RENDER_DEFERRALS
}

/// The state after the render timer fired.
pub open spec fn after_render_timer(s: SchedulerView) -> SchedulerView {
    if defers(s) {
        SchedulerView { render_scheduled: true, deferred: s.deferred + 1, ..s }
    } else {
        SchedulerView {
            render_scheduled: false,
            invalidate_all: false,
            invalidated: Set::empty(),
            deferred: 0,
            frame_current: false,
            ..s
        }
    }
}

/// The decision taken when the render timer fired, taken by its views: put
/// off by so many milliseconds, or a render with the given plan.
pub open spec fn render_decision_matches(s: SchedulerView, d: RenderDecision) -> bool {
    if defers(s) {
        d == RenderDecision::Defer(RENDER_RETRY_INTERVAL_MS)
    } else {
        d matches RenderDecision::Render(p) && p.from_root == (s.invalidate_all || !s.frame_current)
            && p.diff_against_frame == s.frame_current && p.changed@.to_set() == s.invalidated
    }
}

/// The items of a set, each once, in the order the set is walked.
fn set_items(set: &HashSet<u64>) -> (res: Vec<u64>)
    ensures
        res@.to_set() == set@,
{
    let mut out: Vec<u64> = Vec::new();
    for x in it: set.iter()
        invariant
            out@.len() == it.index(),
            forall|i: int| 0 <= i < it.index() ==> out@[i] == *(#[trigger] it.seq()[i]),
            forall|j: int| 0 <= j < out@.len() ==> set@.contains(#[trigger] out@[j]),
    {
        out.push(*x);
    }
    proof {
        assert forall|y: u64| out@.to_set().contains(y) <==> set@.contains(y) by {
            if out@.contains(y) {
                let j = choose|j: int| 0 <= j < out@.len() && out@[j] == y;
            }
        }
        assert(out@.to_set() =~= set@);
    }
    out
}

impl Scheduler {
    /// A scheduler with no render planned, nothing invalidated and no frame.
    pub fn new() -> (res: Scheduler)
        ensures
            res@.render_scheduled == false,
            res@.invalidate_all == false,
            res@.invalidated == Set::<u64>::empty(),
            res@.deferred == 0,
            res@.frame_pending == false,
            res@.frame_current == false,
    {
        let res = Scheduler {
            render_scheduled: false,
            invalidate_all: false,
            invalidated: HashSet::new(),
            deferred: 0,
            frame_pending: false,
            frame_current: false,
        };
        res
    }

    /// Arms the render timer unless it is armed already; returns the
    /// milliseconds of the timer to start, if one is to be started.
    fn schedule_render(&mut self, wait_ms: u64) -> (timer: Option<u64>)
        ensures
            (final(self)@, timer) == after_schedule(old(self)@, wait_ms),
    {
        if self.render_scheduled {
            None
        } else {
            self.render_scheduled = true;
            Some(wait_ms)
        }
    }

    /// The runtime starts: the first render is planned after the usual wait,
    /// so that services started on mount can update the state first.
    pub fn start(&mut self) -> (timer: Option<u64>)
        ensures
            (final(self)@, timer) == after_schedule(old(self)@, DEFAULT_RENDER_INTERVAL_MS),
    {
        self.schedule_render(DEFAULT_RENDER_INTERVAL_MS)
    }

    /// The application was updated and answered `updated`; returns the
    /// milliseconds of the render timer to start, if one is to be started.
    pub fn on_update(&mut self, updated: &Updated) -> (timer: Option<u64>)
        ensures
            (final(self)@, timer) == after_update(old(self)@, updated@),
    {
        proof {
            lemma_updated_view(updated);
        }
        if updated.should_render {
            self.invalidate_all = true;
            self.schedule_render(DEFAULT_RENDER_INTERVAL_MS)
        } else {
            match &updated.components_render {
                Some(ids) => {
                    let ghost before = self.invalidated@;
                    let ghost id_views = ids@.map_values(|id: Id| id@);
                    let mut i: usize = 0;
                    while i < ids.len()
                        invariant
                            0 <= i <= ids.len(),
                            id_views == ids@.map_values(|id: Id| id@),
                            self.invalidated@ == before.union(id_views.take(i as int).to_set()),
                            before == old(self)@.invalidated,
                            self.render_scheduled == old(self).render_scheduled,
                            self.invalidate_all == old(self).invalidate_all,
                            self.deferred == old(self).deferred,
                            self.frame_pending == old(self).frame_pending,
                            self.frame_current == old(self).frame_current,
                        decreases ids.len() - i,
                    {
                        self.invalidated.insert(ids[i].data());
                        proof {
                            assert(id_views.take(i + 1) =~= id_views.take(i as int).push(ids@[i as int]@));
                            id_views.take(i as int).lemma_push_to_set_commute(ids@[i as int]@);
                            assert(self.invalidated@ =~= before.union(id_views.take(i + 1).to_set()));
                        }
                        i = i + 1;
                    }
                    proof {
                        assert(id_views.take(i as int) =~= id_views);
                        assert(updated@.components == Some(ids@));
                        assert(invalidated_by(updated@) =~= id_views.to_set());
                    }
                    self.schedule_render(DEFAULT_RENDER_INTERVAL_MS)
                },
                None => None,
            }
        }
    }

    /// The render timer fired: either the render is put off, because the
    /// frontend still applies the previous frame, or it is made now.
    pub fn on_render_timer(&mut self) -> (res: RenderDecision)
        ensures
            final(self)@ == after_render_timer(old(self)@),
            render_decision_matches(old(self)@, res),
    {
        self.render_scheduled = false;
        if self.frame_pending && !self.frame_current && self.deferred < MAX_RENDER_DEFERRALS {
            self.deferred = self.deferred + 1;
            self.schedule_render(RENDER_RETRY_INTERVAL_MS);
            RenderDecision::Defer(RENDER_RETRY_INTERVAL_MS)
        } else {
            self.deferred = 0;
            let had_frame = self.frame_current;
            self.frame_current = false;
            let changed = set_items(&self.invalidated);
            self.invalidated.clear();
            let plan = RenderPlan {
                from_root: self.invalidate_all || !had_frame,
                diff_against_frame: had_frame,
                changed,
            };
            self.invalidate_all = false;
            RenderDecision::Render(plan)
        }
    }

    /// The patch of a render was computed: an empty patch makes the new frame
    /// current at once; otherwise the patch is sent and its frame is pending
    /// until the frontend reports it applied.
    pub fn on_patch(&mut self, empty: bool)
        ensures
            final(self)@ == (if empty {
                SchedulerView { frame_pending: false, frame_current: true, ..old(self)@ }
            } else {
                SchedulerView { frame_pending: true, ..old(self)@ }
            }),
    {
        if empty {
            self.frame_pending = false;
            self.frame_current = true;
        } else {
            self.frame_pending = true;
        }
    }

    /// The frontend reports that it applied a patch; returns whether a pending
    /// frame becomes current.
    pub fn on_frame_applied(&mut self) -> (applied: bool)
        ensures
            applied == old(self)@.frame_pending,
            final(self)@ == (if applied {
                SchedulerView { frame_pending: false, frame_current: true, ..old(self)@ }
            } else {
                old(self)@
            }),
    {
        if self.frame_pending {
            self.frame_pending = false;
            self.frame_current = true;
            true
        } else {
            false
        }
    }
}

/// The dialogs components asked for that wait to be answered, first come
/// first served: the first of them is the one the frontend shows.
#[derive(Debug)]
pub struct DialogQueue<T> {
    items: Vec<T>,
}

impl<T> View for DialogQueue<T> {
    type V = Seq<T>;

    closed spec fn view(&self) -> Seq<T> {
        self.items@
    }
}

impl<T> DialogQueue<T> {
    /// A queue without dialogs.
    pub fn new() -> (res: Self)
        ensures
            res@ == Seq::<T>::empty(),
    {
        DialogQueue { items: Vec::new() }
    }

    /// A component asks for a dialog: it joins the end of the queue. Returns
    /// whether it is to be shown now, which is when no other dialog waits.
    pub fn request(&mut self, dialog: T) -> (show: bool)
        ensures
            show == (old(self)@.len() == 0),
            final(self)@ == old(self)@.push(dialog),
    {
        let show = self.items.len() == 0;
        self.items.push(dialog);
        show
    }

    /// The frontend answered the dialog it showed: the first one leaves the
    /// queue and is returned, to resolve the answer.
    pub fn answer(&mut self) -> (answered: T)
        requires
            old(self)@.len() > 0,
        ensures
            answered == old(self)@[0],
            final(self)@ == old(self)@.drop_first(),
    {
        let answered = self.items.remove(0);
        assert(self.items@ =~= old(self)@.drop_first());
        answered
    }

    /// The dialog to show, if any waits: the first one.
    pub fn first(&self) -> (res: Option<&T>)
        ensures
            self@.len() == 0 ==> res is None,
            self@.len() > 0 ==> res == Some(&self@[0]),
    {
        if self.items.len() == 0 {
            None
        } else {
            Some(&self.items[0])
        }
    }

    /// Whether no dialog waits.
    pub fn is_empty(&self) -> (res: bool)
        ensures
            res == (self@.len() == 0),
    {
        self.items.len() == 0
    }
}

/// The state of a queue after `n` answers.
pub open spec fn after_answers<T>(q: Seq<T>, n: nat) -> Seq<T>
    decreases n,
{
    if n == 0 {
        q
    } else {
        after_answers(q, (n - 1) as nat).drop_first()
    }
}

/// Dialogs are answered in the order they were asked for: a dialog asked for
/// while `q` waits is the first one, the one shown, once the dialogs of `q`
/// were answered, whatever was asked for after it.
pub proof fn lemma_dialogs_fifo<T>(q: Seq<T>, d: T, later: Seq<T>)
    ensures
        after_answers(q.push(d) + later, q.len())[0] == d,
        after_answers(q.push(d) + later, q.len()).len() > 0,
{
    lemma_after_answers(q.push(d) + later, q.len());
    assert((q.push(d) + later)[q.len() as int] == d);
}

/// After `n` answers, the first `n` dialogs have left the queue.
proof fn lemma_after_answers<T>(q: Seq<T>, n: nat)
    requires
        n <= q.len(),
    ensures
        after_answers(q, n) == q.skip(n as int),
    decreases n,
{
    if n == 0 {
        assert(q.skip(0) =~= q);
    } else {
        lemma_after_answers(q, (n - 1) as nat);
        assert(q.skip(n - 1).drop_first() =~= q.skip(n as int));
    }
}

/// Every decision keeps the renders put off in a row within the limit.
pub proof fn lemma_scheduler_wf_kept(s: SchedulerView, u: UpdatedView, ms: u64)
    requires
        scheduler_wf(s),
    ensures
        scheduler_wf(after_schedule(s, ms).0),
        scheduler_wf(after_update(s, u).0),
        scheduler_wf(after_render_timer(s)),
{
}

/// A render timer is started only while none is armed, and afterwards one is
/// armed: renders are debounced.
pub proof fn lemma_debounce(s: SchedulerView, u: UpdatedView, ms: u64)
    ensures
        after_schedule(s, ms).1 is Some ==> !s.render_scheduled,
        after_schedule(s, ms).0.render_scheduled,
        after_update(s, u).1 is Some ==> !s.render_scheduled && after_update(s, u).0.render_scheduled,
        (u.should_render || u.components is Some) ==> after_update(s, u).0.render_scheduled,
{
}

/// The state after the render timer fired `k` times in a row.
pub open spec fn timer_fired(s: SchedulerView, k: nat) -> SchedulerView
    decreases k,
{
    if k == 0 {
        s
    } else {
        after_render_timer(timer_fired(s, (k - 1) as nat))
    }
}

/// A render is never put off more than the limit in a row: among the first
/// `MAX_RENDER_DEFERRALS + 1` firings of the render timer, one renders.
pub proof fn lemma_render_not_put_off_forever(s: SchedulerView)
    requires
        scheduler_wf(s),
    ensures
        exists|k: nat| k <= MAX_RENDER_DEFERRALS && !defers(#[trigger] timer_fired(s, k)),
{
    let d = s.deferred;
    if !defers(s) {
        assert(timer_fired(s, 0) == s);
    } else {
        let k: nat = (MAX_RENDER_DEFERRALS - d) as nat;
        assert forall|j: nat| j <= k implies #[trigger] timer_fired(s, j).deferred == d + j
            && timer_fired(s, j).frame_pending && !timer_fired(s, j).frame_current by {
            lemma_timer_fired_deferring(s, j, k);
        }
        assert(timer_fired(s, k).deferred == MAX_RENDER_DEFERRALS);
    }
}

/// While the render is put off, each firing counts one more deferral and
/// leaves the frames alone.
proof fn lemma_timer_fired_deferring(s: SchedulerView, j: nat, k: nat)
    requires
        scheduler_wf(s),
        defers(s),
        k == MAX_RENDER_DEFERRALS - s.deferred,
        j <= k,
    ensures
        timer_fired(s, j).deferred == s.deferred + j,
        timer_fired(s, j).frame_pending,
        !timer_fired(s, j).frame_current,
    decreases j,
{
    if j > 0 {
        lemma_timer_fired_deferring(s, (j - 1) as nat, k);
    }
}

/// After a render nothing is left invalidated, no timer is armed, and the
/// next render is diffed against a frame only once a frame became current.
pub proof fn lemma_render_clears(s: SchedulerView)
    requires
        !defers(s),
    ensures
        after_render_timer(s).invalidated == Set::<u64>::empty(),
        !after_render_timer(s).invalidate_all,
        !after_render_timer(s).render_scheduled,
        !after_render_timer(s).frame_current,
        after_render_timer(s).deferred == 0,
{
}

/// Putting a render off loses no invalidation: while the render timer fires
/// and the render is put off, what is to be rendered again stays as it was.
pub proof fn lemma_deferral_keeps_invalidation(s: SchedulerView, k: nat)
    requires
        forall|j: nat| j < k ==> defers(#[trigger] timer_fired(s, j)),
    ensures
        timer_fired(s, k).invalidate_all == s.invalidate_all,
        timer_fired(s, k).invalidated == s.invalidated,
    decreases k,
{
    if k > 0 {
        lemma_deferral_keeps_invalidation(s, (k - 1) as nat);
        assert(defers(timer_fired(s, (k - 1) as nat)));
    }
}

/// The items and translations of the patch that brings the frontend from the
/// frame it shows to a new render: the diff of the two when the render is
/// diffed against that frame, else the whole new render.
pub open spec fn patch_for(old: Option<&Frame>, diff_against_frame: bool, new: &RenderResult) -> (
    Seq<PatchOp>,
    Map<u64, u64>,
) {
    match old {
        Some(f) => if diff_against_frame {
            let d = Differ { old: f, new };
            (
                strip_trailing_moves(d.spec_tree().0.items) + blob_ops(f.rendered.blobs@, new.blobs@),
                d.spec_tree().0.trans,
            )
        } else {
            (full_ops(*new), Map::empty())
        },
        None => (full_ops(*new), Map::empty()),
    }
}

/// What a render yields: the new frame, and the encoded patch to send to the
/// frontend, if the patch holds any item.
#[derive(Debug)]
pub struct RenderOutput {
    pub frame: Frame,
    pub patch: Option<Vec<u8>>,
}

/// The ids with the given data.
fn ids_from_data(v: &Vec<u64>) -> (res: Vec<Id>)
    ensures
        res@.len() == v@.len(),
        forall|j: int| 0 <= j < v@.len() ==> (#[trigger] res@[j])@ == v@[j],
{
    let mut out: Vec<Id> = Vec::new();
    let mut i: usize = 0;
    while i < v.len()
        invariant
            0 <= i <= v.len(),
            out@.len() == i,
            forall|j: int| 0 <= j < i ==> (#[trigger] out@[j])@ == v@[j],
        decreases v.len() - i,
    {
        out.push(Id::new_from_data(v[i]));
        i = i + 1;
    }
    out
}

/// Makes the render a plan asks for. The component tree is rendered from the
/// given root when the plan asks for it or no frame is shown; otherwise only
/// the changed components of the shown frame are rendered again. The patch is
/// the diff against the shown frame when the plan asks for it, else the whole
/// render; an empty patch is not sent. `None` when the render refuses a
/// component mounted where it is already rendered.
pub fn render_frame<R: ComponentRenderer>(
    plan: &RenderPlan,
    old: Option<&Frame>,
    root: Node,
    renderer: &mut R,
) -> (res: Result<RenderOutput, RenderRefusal>)
    requires
        old matches Some(f) ==> f.rendered.wf(),
    ensures
        res matches Err(e) ==> if plan.from_root || old is None {
            root_refusal_explained(e, root)
        } else {
            refusal_explained(e, old.unwrap().rendered.root_dom())
        },
        res matches Ok(out) ==> {
            let new = &out.frame.rendered;
            let (ops, trans) = patch_for(old, plan.diff_against_frame, new);
            &&& new.wf()
            &&& all_mounted(new.components@, new.root_dom())
            &&& forest(new.root_dom(), new.components@)
            &&& (plan.from_root || old is None) ==> rendered_as(root, seq![new.root_dom()])
            &&& (!plan.from_root && old is Some) ==> {
                &&& new.root_dom() == old.unwrap().rendered.root_dom()
                &&& forall|k: int| 0 <= k < new.components@.len() ==> {
                    let c = #[trigger] new.components@[k];
                    let before = old.unwrap().rendered.components@;
                    (!plan.changed@.contains(c.id@) && listed_from(before, c.id@, 0)) ==> c
                        == before[component_index(before, c.id@).unwrap()]
                }
            }
            &&& out.frame.translations@ == trans
            &&& match out.patch {
                Some(bytes) => ops.len() > 0 && bytes@ == enc_ops(new.components@, ops),
                None => ops.len() == 0,
            }
        },
{
    let rendered = if !plan.from_root && old.is_some() {
        let f = old.unwrap();
        let changed = ids_from_data(&plan.changed);
        let r = RenderResult::new_from_frame(f, &changed, renderer);
        proof {
            assert forall|x: u64| has_id(changed@, x) == plan.changed@.contains(x) by {
                if has_id(changed@, x) {
                    let j = choose|j: int| 0 <= j < changed@.len() && (#[trigger] changed@[j])@ == x;
                    assert(plan.changed@[j] == x);
                }
                if plan.changed@.contains(x) {
                    let j = choose|j: int| 0 <= j < plan.changed@.len() && plan.changed@[j] == x;
                    assert(changed@[j]@ == x);
                }
            }
        }
        r
    } else {
        RenderResult::new_from_root(root, renderer)
    };
    let rendered = match rendered {
        Ok(r) => r,
        Err(e) => {
            return Err(e);
        },
    };
    let (bytes, translations) = {
        let patch = match old {
            Some(f) => if plan.diff_against_frame {
                Differ::new(f, &rendered).diff()
            } else {
                Patch::from_dom(&rendered)
            },
            None => Patch::from_dom(&rendered),
        };
        let bytes = if patch.is_empty() {
            None
        } else {
            Some(serialize(&rendered, &patch))
        };
        (bytes, patch.translations)
    };
    Ok(RenderOutput { frame: Frame::new(rendered, translations), patch: bytes })
}

} // verus!
