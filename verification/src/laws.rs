//! What holds of the compositor whatever happens to it: laws over single
//! steps and over whole runs, proved from the model.

use vstd::prelude::*;
use crate::ids::{ClientId, SurfaceId};
use crate::model::{Model, Step};
use crate::protocol::Request;
use crate::seat::{DispatchResult, InputEvent};
use crate::space::{
    callback_at, element_of, lemma_filter_distinct, living, released, settled, shown,
    SurfaceCommit,
};
use crate::seqs::lemma_filter_member;
use crate::window::{Window, WindowPhase};

verus! {

/// The ways in which one step may change the window on surface `id`.
///
/// Where there was no window, there is none afterwards, or a fresh one
/// under a number never used before. Where there was one, it is unchanged,
/// or a buffer was staged on it, or it was committed, acknowledged,
/// destroyed, or presented by a tick; a destroyed one can only stay as it is
/// or be dropped by a tick.
pub open spec fn window_moves(pre: Model, step: Step, id: SurfaceId) -> bool {
    let after = pre.step(step).space.window(id);
    match pre.space.window(id) {
        None => after matches Some(n) ==> {
            &&& n == Window::fresh(id, n.surface.client)
            &&& id.0 == pre.space.next_surface
            &&& pre.registry.has_client(n.surface.client)
        },
        Some(w) => {
            ||| after == Some(w)
            ||| w.alive && (after matches Some(n) && n == w.staged(n.staged_buffer()))
            ||| w.alive && step.commits(id) && pre.committed(id) is Applied && after == Some(
                w.committed(),
            )
            ||| w.alive && w.initial_configure_sent && !w.surface.configured && after == Some(
                w.acknowledged(),
            )
            ||| w.alive && after == Some(w.destroyed())
            ||| w.alive && step is Tick && after == Some(w.presented())
            ||| !w.alive && step is Tick && after is None
        },
    }
}

proof fn lemma_disconnect_moves(pre: Model, c: ClientId, id: SurfaceId)
    requires
        pre.inv(),
    ensures
        pre.disconnect(c).space.window(id) == (match pre.space.window(id) {
            Some(w) => Some(released(c)(w)),
            None => None,
        }),
{
    pre.space.lemma_map(released(c));
}

proof fn lemma_new_toplevel_moves(pre: Model, c: ClientId, id: SurfaceId)
    requires
        pre.inv(),
    ensures
        pre.space.window(id) matches Some(w) ==> pre.new_toplevel(c).space.window(id) == Some(w),
        pre.space.window(id) is None ==> (pre.new_toplevel(c).space.window(id) matches Some(n) ==> n
            == Window::fresh(id, c) && id.0 == pre.space.next_surface && pre.registry.has_client(
            c,
        )),
{
    pre.space.lemma_create(c);
    if pre.can_create_toplevel(c) {
        let post = pre.new_toplevel(c);
        if pre.space.window(id) is None && post.space.window(id) is Some {
            assert(post.space.has(id));
            assert(pre.space.created() == Some(crate::ids::WindowHandle { surface: id }));
        }
    }
}

proof fn lemma_put_moves(pre: Model, s: SurfaceId, w: Window, id: SurfaceId)
    requires
        pre.inv(),
        pre.space.has(s),
        w.surface.id == s,
        w.wf(),
    ensures
        pre.space.put(s, w).window(id) == if id == s {
            Some(w)
        } else {
            pre.space.window(id)
        },
{
    pre.space.lemma_put(s, w);
}

proof fn lemma_commit_moves(pre: Model, s: SurfaceId, id: SurfaceId)
    requires
        pre.inv(),
    ensures
        pre.commit(s).space.window(id) == (match pre.committed(s) {
            SurfaceCommit::Ignored => pre.space.window(id),
            SurfaceCommit::Refused { client, error } => match pre.space.window(id) {
                Some(w) => Some(released(client)(w)),
                None => None,
            },
            SurfaceCommit::Applied { configure } => if id == s {
                Some(pre.space.window(s)->0.committed())
            } else {
                pre.space.window(id)
            },
        }),
{
    match pre.committed(s) {
        SurfaceCommit::Ignored => {},
        SurfaceCommit::Refused { client, error } => {
            lemma_disconnect_moves(pre, client, id);
        },
        SurfaceCommit::Applied { configure } => {
            pre.space.lemma_window(s);
            lemma_put_moves(pre, s, pre.space.window(s)->0.committed(), id);
        },
    }
}

proof fn lemma_basic_moves(pre: Model, step: Step, id: SurfaceId)
    requires
        pre.inv(),
        !(step is Request),
    ensures
        window_moves(pre, step, id),
{
    match step {
        Step::Disconnect(c) => {
            lemma_disconnect_moves(pre, c, id);
        },
        Step::NewToplevel(c) => {
            lemma_new_toplevel_moves(pre, c, id);
        },
        Step::Attach(s, buffer) => {
            if pre.space.live(s) {
                pre.space.lemma_window(s);
                lemma_put_moves(pre, s, pre.space.window(s)->0.staged(buffer), id);
            }
        },
        Step::Commit(s) => {
            lemma_commit_moves(pre, s, id);
            if pre.committed(s) is Applied {
                pre.space.lemma_window(s);
            }
        },
        Step::AckConfigure(s) => {
            if pre.space.awaits_acknowledge(s) {
                pre.space.lemma_window(s);
                lemma_put_moves(pre, s, pre.space.window(s)->0.acknowledged(), id);
            }
        },
        Step::Destroy(s) => {
            if pre.space.live(s) {
                pre.space.lemma_window(s);
                lemma_put_moves(pre, s, pre.space.window(s)->0.destroyed(), id);
            }
        },
        Step::Tick(events) => {
            pre.lemma_refresh();
        },
        _ => {},
    }
}

/// Every step changes every window in one of the ways of `window_moves`.
pub proof fn lemma_window_moves(pre: Model, step: Step, id: SurfaceId)
    requires
        pre.inv(),
    ensures
        window_moves(pre, step, id),
{
    match step {
        Step::Request(client, req) => {
            if pre.registry.has_client(client) {
                if pre.trespasses(client, req) {
                    lemma_basic_moves(pre, Step::Disconnect(client), id);
                } else {
                    match req {
                        Request::CreateToplevel => lemma_basic_moves(
                            pre,
                            Step::NewToplevel(client),
                            id,
                        ),
                        Request::CreateBuffer => {},
                        Request::DestroyBuffer { id } => {},
                        Request::Attach { surface, buffer } => lemma_basic_moves(
                            pre,
                            Step::Attach(surface, buffer),
                            id,
                        ),
                        Request::Commit { surface } => lemma_basic_moves(
                            pre,
                            Step::Commit(surface),
                            id,
                        ),
                        Request::AckConfigure { surface } => lemma_basic_moves(
                            pre,
                            Step::AckConfigure(surface),
                            id,
                        ),
                        Request::Destroy { window } => lemma_basic_moves(
                            pre,
                            Step::Destroy(window.surface),
                            id,
                        ),
                    }
                }
            }
        },
        _ => lemma_basic_moves(pre, step, id),
    }
}

/// The numbers for new surfaces only grow, and every window has a number
/// below the next one. So a number once given is never given again.
pub proof fn surface_numbers_are_never_reused(pre: Model, step: Step, id: SurfaceId)
    requires
        pre.inv(),
    ensures
        pre.space.next_surface <= pre.step(step).space.next_surface,
        pre.step(step).space.has(id) ==> id.0 < pre.step(step).space.next_surface,
        !pre.space.has(id) && id.0 < pre.space.next_surface ==> !pre.step(step).space.has(id),
{
    let post = pre.step(step);
    pre.lemma_step(step);
    lemma_window_moves(pre, step, id);
    if post.space.has(id) {
        post.space.lemma_window(id);
    }
    match step {
        Step::Request(client, req) => {
            match req {
                Request::Commit { surface } => {
                    assert(post.space.next_surface == pre.space.next_surface
                        || post.space.next_surface == pre.space.next_surface + 1);
                },
                _ => {},
            }
        },
        _ => {},
    }
}

/// Configure-once, for one step.
///
/// Once the initial configure of a window counts as sent, it counts as sent
/// for as long as the window is there. It comes to count as sent only by a
/// commit of that very window, one that found the window live and with no
/// configure sent yet, and that commit's result asks for the configure.
pub proof fn configure_once(pre: Model, step: Step, id: SurfaceId)
    requires
        pre.inv(),
    ensures
        pre.configure_sent(id) && pre.step(step).space.has(id) ==> pre.step(step).configure_sent(
            id,
        ),
        !pre.configure_sent(id) && pre.step(step).configure_sent(id) ==> {
            &&& step.commits(id)
            &&& pre.space.live(id)
            &&& pre.committed(id) == SurfaceCommit::Applied { configure: true }
        },
{
    lemma_window_moves(pre, step, id);
}

/// A commit that is applied leaves the window with its initial configure
/// sent, and asks for the configure exactly when it had not been sent. So
/// the commit that sends it is the window's first applied one.
pub proof fn applied_commit_sends_configure(pre: Model, s: SurfaceId)
    requires
        pre.inv(),
        pre.committed(s) is Applied,
    ensures
        pre.commit(s).configure_sent(s),
        pre.committed(s) == (SurfaceCommit::Applied { configure: !pre.configure_sent(s) }),
{
    lemma_commit_moves(pre, s, s);
}

/// How often, in a run of steps from `pre`, the initial configure of the
/// window on `id` came to count as sent.
pub open spec fn configures_sent(pre: Model, steps: Seq<Step>, id: SurfaceId) -> nat
    decreases steps.len(),
{
    if steps.len() == 0 {
        0
    } else {
        let before = pre.run(steps.drop_last());
        let sent_now: nat = if !before.configure_sent(id) && before.step(
            steps.last(),
        ).configure_sent(id) {
            1
        } else {
            0
        };
        configures_sent(pre, steps.drop_last(), id) + sent_now
    }
}

/// A surface number that can send no configure any more: its window has
/// had one sent, or is gone for good.
spec fn spent(m: Model, id: SurfaceId) -> bool {
    m.configure_sent(id) || (!m.space.has(id) && id.0 < m.space.next_surface)
}

proof fn lemma_spent_stays(pre: Model, step: Step, id: SurfaceId)
    requires
        pre.inv(),
        spent(pre, id),
    ensures
        spent(pre.step(step), id),
        pre.step(step).configure_sent(id) ==> pre.configure_sent(id),
{
    surface_numbers_are_never_reused(pre, step, id);
    configure_once(pre, step, id);
    let post = pre.step(step);
    if pre.configure_sent(id) && !post.space.has(id) {
        pre.space.lemma_window(id);
        assert(pre.space.window(id)->0.surface.id.0 < pre.space.next_surface);
    }
}

proof fn lemma_configures_sent(pre: Model, steps: Seq<Step>, id: SurfaceId)
    requires
        pre.inv(),
    ensures
        configures_sent(pre, steps, id) <= 1,
        configures_sent(pre, steps, id) == 1 || spent(pre, id) ==> spent(pre.run(steps), id),
        spent(pre, id) ==> configures_sent(pre, steps, id) == 0,
    decreases steps.len(),
{
    if steps.len() > 0 {
        let head = steps.drop_last();
        lemma_configures_sent(pre, head, id);
        pre.lemma_run(head);
        let before = pre.run(head);
        configure_once(before, steps.last(), id);
        if spent(before, id) {
            lemma_spent_stays(before, steps.last(), id);
        }
    }
}

/// Configure-once, for a whole run: whatever happens, the initial configure
/// of a window comes to count as sent at most once.
pub proof fn configure_sent_at_most_once(pre: Model, steps: Seq<Step>, id: SurfaceId)
    requires
        pre.inv(),
    ensures
        configures_sent(pre, steps, id) <= 1,
{
    lemma_configures_sent(pre, steps, id);
}

/// A window goes through its phases in order: from unconfigured to
/// configure-pending by its first commit, from there to configured by the
/// acknowledgement, and from any phase to destroyed. No step skips the
/// pending phase, and nothing leads out of destroyed.
pub proof fn phases_advance_in_order(pre: Model, step: Step, id: SurfaceId)
    requires
        pre.inv(),
        pre.space.has(id),
        pre.step(step).space.has(id),
    ensures
        ({
            let before = pre.space.window(id)->0.phase();
            let after = pre.step(step).space.window(id)->0.phase();
            match before {
                WindowPhase::Unconfigured => after is Unconfigured || after is ConfigurePending
                    || after is Destroyed,
                WindowPhase::ConfigurePending => after is ConfigurePending || after is Configured
                    || after is Destroyed,
                WindowPhase::Configured => after is Configured || after is Destroyed,
                WindowPhase::Destroyed => after is Destroyed,
            }
        }),
{
    lemma_window_moves(pre, step, id);
}

/// What composition reads of a surface changes only by a commit of that
/// surface, and then to what was staged. Staging, in particular, shows
/// nothing.
pub proof fn current_state_changes_only_on_commit(pre: Model, step: Step, id: SurfaceId)
    requires
        pre.inv(),
        pre.space.has(id),
        pre.step(step).space.has(id),
        pre.step(step).space.window(id)->0.surface.current != pre.space.window(
            id,
        )->0.surface.current,
    ensures
        step.commits(id),
        pre.space.window(id)->0.surface.pending == Some(
            pre.step(step).space.window(id)->0.surface.current,
        ),
{
    lemma_window_moves(pre, step, id);
}

proof fn lemma_same_picture(before: Seq<Window>, after: Seq<Window>)
    requires
        before.len() == after.len(),
        forall|i: int|
            0 <= i < before.len() ==> (#[trigger] before[i]).is_mapped() == after[i].is_mapped()
                && element_of()(before[i]) == element_of()(after[i]),
    ensures
        before.filter(shown()).map_values(element_of()) == after.filter(shown()).map_values(
            element_of(),
        ),
    decreases before.len(),
{
    reveal(Seq::filter);
    if before.len() == 0 {
        assert(before =~= after);
    } else {
        let b = before.drop_last();
        let a = after.drop_last();
        assert forall|i: int| 0 <= i < b.len() implies (#[trigger] b[i]).is_mapped()
            == a[i].is_mapped() && element_of()(b[i]) == element_of()(a[i]) by {
            assert(b[i] == before[i] && a[i] == after[i]);
        }
        lemma_same_picture(b, a);
        assert(before.last() == before[before.len() - 1]);
        assert(before =~= b.push(before.last()));
        assert(after =~= a.push(after.last()));
        b.lemma_filter_push(before.last(), shown());
        a.lemma_filter_push(after.last(), shown());
        if before.last().is_mapped() {
            assert(b.filter(shown()).push(before.last()).map_values(element_of())
                =~= b.filter(shown()).map_values(element_of()).push(
                element_of()(before.last()),
            ));
            assert(a.filter(shown()).push(after.last()).map_values(element_of()) =~= a.filter(
                shown(),
            ).map_values(element_of()).push(element_of()(after.last())));
        }
    }
}

/// Staged state is invisible to composition: staging a buffer changes
/// nothing of what the next frame draws.
pub proof fn staging_shows_nothing(
    pre: Model,
    s: SurfaceId,
    buffer: Option<crate::ids::BufferId>,
)
    requires
        pre.inv(),
    ensures
        pre.attach(s, buffer).space.scene() == pre.space.scene(),
{
    if pre.space.live(s) {
        pre.space.lemma_window(s);
        lemma_same_picture(pre.space.windows, pre.attach(s, buffer).space.windows);
    }
}

/// Destroying a window a second time changes nothing.
pub proof fn destroy_is_idempotent(pre: Model, id: SurfaceId)
    requires
        pre.inv(),
    ensures
        pre.destroy(id).destroy(id) == pre.destroy(id),
{
    let once = pre.destroy(id);
    pre.lemma_destroy(id);
    if pre.space.live(id) {
        pre.space.lemma_window(id);
        lemma_put_moves(pre, id, pre.space.window(id)->0.destroyed(), id);
    }
    assert(!once.space.live(id));
    assert(once.seat.revalidate(once.space) == once.seat);
}

/// Every state that can be reached is valid: the state to begin with is,
/// and every run of steps from a valid state ends in one. In particular no
/// live window outlives its client, and the focus never dangles: it names a
/// live window or nothing.
pub proof fn reachable_states_are_valid(
    capacity: usize,
    output: crate::output::Output,
    steps: Seq<Step>,
)
    ensures
        Model::initial(capacity, output).inv(),
        Model::initial(capacity, output).run(steps).inv(),
{
    let start = Model::initial(capacity, output);
    assert(start.inv());
    start.lemma_run(steps);
}

/// The focus never dangles: after any run of steps it names a live window
/// or nothing.
pub proof fn focus_never_dangles(pre: Model, steps: Seq<Step>)
    requires
        pre.inv(),
    ensures
        pre.run(steps).seat.focus matches Some(s) ==> pre.run(steps).space.live(s),
{
    pre.lemma_run(steps);
}

/// No surface outlives its client: after any run of steps, the client of
/// every live window is connected.
pub proof fn no_window_outlives_its_client(pre: Model, steps: Seq<Step>, id: SurfaceId)
    requires
        pre.inv(),
    ensures
        pre.run(steps).space.live(id) ==> pre.run(steps).registry.has_client(
            pre.run(steps).space.window(id)->0.surface.client,
        ),
{
    pre.lemma_run(steps);
}

/// Nothing shows before the configure is acknowledged: after any run of
/// steps, a window whose surface has a buffer as its current state has had
/// its initial configure sent and acknowledged.
pub proof fn no_content_before_acknowledgement(pre: Model, steps: Seq<Step>, id: SurfaceId)
    requires
        pre.inv(),
    ensures
        pre.run(steps).space.window(id) matches Some(w) ==> (w.surface.current.buffer is Some
            ==> w.initial_configure_sent && w.surface.configured),
{
    pre.lemma_run(steps);
    let post = pre.run(steps);
    if post.space.has(id) {
        post.space.lemma_window(id);
    }
}

/// Focus-loss safety: destroying the focused window leaves nothing in
/// focus, and whatever input comes next is dropped or intercepted, never
/// forwarded, and leaves a valid state.
pub proof fn focus_loss_safety(pre: Model, id: SurfaceId, event: InputEvent)
    requires
        pre.inv(),
        pre.seat.focus == Some(id),
    ensures
        pre.destroy(id).seat.focus is None,
        !(pre.destroy(id).input_outcome(event) is Forwarded),
        pre.destroy(id).input(event).inv(),
        pre.destroy(id).input(event).seat.focus is None,
{
    pre.lemma_destroy(id);
    pre.space.lemma_window(id);
    lemma_put_moves(pre, id, pre.space.window(id)->0.destroyed(), id);
    pre.destroy(id).lemma_input(event);
}

/// The same when the focused window goes because its client does.
pub proof fn focus_lost_with_client(pre: Model, c: ClientId, event: InputEvent)
    requires
        pre.inv(),
        pre.seat.focus matches Some(s) && pre.space.window(s)->0.surface.client == c,
    ensures
        pre.disconnect(c).seat.focus is None,
        !(pre.disconnect(c).input_outcome(event) is Forwarded),
{
    lemma_disconnect_moves(pre, c, pre.seat.focus->0);
}

/// A forwarded event goes to the window in focus, which is live, and to
/// the client that owns it; it is the event that came in and carries the
/// serial that the counter stood at. An event is never forwarded while
/// nothing is in focus.
pub proof fn forwarded_events_reach_the_live_focus(pre: Model, event: InputEvent)
    requires
        pre.inv(),
    ensures
        pre.input_outcome(event) matches DispatchResult::Forwarded(d) ==> {
            &&& pre.seat.focus == Some(d.surface)
            &&& pre.space.live(d.surface)
            &&& pre.space.window(d.surface)->0.surface.client == d.client
            &&& pre.registry.has_client(d.client)
            &&& d.event == event
            &&& d.serial == pre.seat.next_serial
        },
        pre.seat.focus is None ==> !(pre.input_outcome(event) is Forwarded),
{
    pre.seat.lemma_dispatch(pre.space, event);
    if pre.input_outcome(event) is Forwarded {
        let d = pre.input_outcome(event)->Forwarded_0;
        assert(pre.space.live(d.surface));
    }
}

/// The global filter comes first: a key whose symbol is bound, on press,
/// is intercepted with the bound action, whatever is in focus; it is
/// forwarded to no client and uses up no serial.
pub proof fn bound_keys_are_intercepted(pre: Model, key: crate::seat::KeyEvent)
    requires
        pre.inv(),
        key.state is Pressed,
        pre.seat.bound(key.keysym),
    ensures
        pre.input_outcome(InputEvent::Key(key)) == DispatchResult::Intercepted(
            pre.seat.action_for(key.keysym)->0,
        ),
        pre.input(InputEvent::Key(key)).seat.next_serial == pre.seat.next_serial,
        pre.input(InputEvent::Key(key)).seat.focus == pre.seat.focus,
{
}

/// An event that no binding intercepts, with a live window in focus and a
/// serial left, is forwarded to that window's client.
pub proof fn unbound_input_is_forwarded(pre: Model, event: InputEvent)
    requires
        pre.inv(),
        pre.seat.focus is Some,
        pre.seat.next_serial < u64::MAX,
        event matches InputEvent::Key(k) ==> pre.seat.intercepts(k) is None,
    ensures
        pre.input_outcome(event) is Forwarded,
{
}

proof fn lemma_step_serials(pre: Model, step: Step)
    requires
        pre.inv(),
    ensures
        pre.seat.next_serial <= pre.step(step).seat.next_serial,
        forall|i: int|
            0 <= i < pre.step_outcomes(step).len() ==> (#[trigger] pre.step_outcomes(step)[i]
                matches DispatchResult::Forwarded(d) ==> pre.seat.next_serial <= d.serial
                < pre.step(step).seat.next_serial),
        forall|i: int, j: int|
            0 <= i < j < pre.step_outcomes(step).len() ==> (#[trigger] pre.step_outcomes(step)[i]
                matches DispatchResult::Forwarded(a) ==> (#[trigger] pre.step_outcomes(step)[j]
                matches DispatchResult::Forwarded(b) ==> a.serial < b.serial)),
{
    match step {
        Step::Input(event) => {
            pre.seat.lemma_dispatch(pre.space, event);
        },
        Step::Tick(events) => {
            pre.seat.lemma_run(pre.space, events);
            pre.seat.lemma_outcomes(pre.space, events);
        },
        _ => {},
    }
}

proof fn lemma_run_serials(pre: Model, steps: Seq<Step>)
    requires
        pre.inv(),
    ensures
        pre.seat.next_serial <= pre.run(steps).seat.next_serial,
        forall|i: int|
            0 <= i < pre.run_outcomes(steps).len() ==> (#[trigger] pre.run_outcomes(steps)[i]
                matches DispatchResult::Forwarded(d) ==> pre.seat.next_serial <= d.serial
                < pre.run(steps).seat.next_serial),
        forall|i: int, j: int|
            0 <= i < j < pre.run_outcomes(steps).len() ==> (#[trigger] pre.run_outcomes(steps)[i]
                matches DispatchResult::Forwarded(a) ==> (#[trigger] pre.run_outcomes(steps)[j]
                matches DispatchResult::Forwarded(b) ==> a.serial < b.serial)),
    decreases steps.len(),
{
    if steps.len() > 0 {
        let head = steps.drop_last();
        lemma_run_serials(pre, head);
        pre.lemma_run(head);
        let mid = pre.run(head);
        lemma_step_serials(mid, steps.last());
        let early = pre.run_outcomes(head);
        let late = mid.step_outcomes(steps.last());
        let all = pre.run_outcomes(steps);
        assert(all == early + late);
        assert forall|i: int| 0 <= i < all.len() implies (#[trigger] all[i]
            matches DispatchResult::Forwarded(d) ==> pre.seat.next_serial <= d.serial < pre.run(
            steps,
        ).seat.next_serial) by {
            if i < early.len() {
                assert(all[i] == early[i]);
            } else {
                assert(all[i] == late[i - early.len()]);
            }
        }
        assert forall|i: int, j: int| 0 <= i < j < all.len() implies (#[trigger] all[i]
            matches DispatchResult::Forwarded(a) ==> (#[trigger] all[j]
            matches DispatchResult::Forwarded(b) ==> a.serial < b.serial)) by {
            if j < early.len() {
                assert(all[i] == early[i] && all[j] == early[j]);
            } else if i < early.len() {
                assert(all[i] == early[i]);
                assert(all[j] == late[j - early.len()]);
            } else {
                assert(all[i] == late[i - early.len()]);
                assert(all[j] == late[j - early.len()]);
            }
        }
    }
}

/// Serial monotonicity: over any run of steps, of any two forwarded events
/// the later one carries the greater serial. So serials rise strictly and
/// none is given twice, across key and button events alike.
pub proof fn serials_strictly_increase(pre: Model, steps: Seq<Step>, i: int, j: int)
    requires
        pre.inv(),
        0 <= i < j < pre.run_outcomes(steps).len(),
        pre.run_outcomes(steps)[i] is Forwarded,
        pre.run_outcomes(steps)[j] is Forwarded,
    ensures
        pre.run_outcomes(steps)[i]->Forwarded_0.serial < pre.run_outcomes(
            steps,
        )[j]->Forwarded_0.serial,
{
    lemma_run_serials(pre, steps);
}

/// What `mapped` gives: windows of the space that are mapped, each once,
/// and every mapped window of the space among them.
pub proof fn lemma_mapped(pre: Model)
    requires
        pre.inv(),
    ensures
        crate::space::distinct_surfaces(pre.space.mapped()),
        forall|i: int|
            0 <= i < pre.space.mapped().len() ==> (#[trigger] pre.space.mapped()[i]).is_mapped()
                && pre.space.window(pre.space.mapped()[i].surface.id) == Some(
                pre.space.mapped()[i],
            ),
        forall|id: SurfaceId|
            (#[trigger] pre.space.window(id)) matches Some(w) ==> (w.is_mapped()
                ==> pre.space.mapped().contains(w)),
{
    let ws = pre.space.windows;
    let mapped = pre.space.mapped();
    lemma_filter_distinct(ws, shown());
    lemma_filter_member(ws, shown());
    assert forall|i: int| 0 <= i < mapped.len() implies (#[trigger] mapped[i]).is_mapped()
        && pre.space.window(mapped[i].surface.id) == Some(mapped[i]) by {
        assert(mapped.contains(mapped[i]));
        let k = ws.index_of(mapped[i]);
        pre.space.lemma_slot(k);
    }
    assert forall|id: SurfaceId| (#[trigger] pre.space.window(id)) matches Some(w) ==> (
    w.is_mapped() ==> mapped.contains(w)) by {
        if pre.space.has(id) {
            let w = pre.space.window(id)->0;
            assert(ws.contains(w));
            assert(shown()(w) == w.is_mapped());
        }
    }
}

/// No premature visibility: every element of a frame's scene shows a live
/// window whose initial configure has been sent, as that window stands in
/// the space. A window without it is in no scene.
pub proof fn no_premature_visibility(
    pre: Model,
    events: Seq<InputEvent>,
    elapsed_ms: u64,
    id: SurfaceId,
)
    requires
        pre.inv(),
    ensures
        forall|i: int|
            0 <= i < pre.frame(events, elapsed_ms).scene.len() ==> {
                let e = #[trigger] pre.frame(events, elapsed_ms).scene[i];
                &&& pre.space.window(e.surface) matches Some(w)
                &&& w.alive
                &&& w.initial_configure_sent
                &&& e == element_of()(w)
            },
        !pre.configure_sent(id) ==> forall|i: int|
            0 <= i < pre.frame(events, elapsed_ms).scene.len() ==> (#[trigger] pre.frame(
                events,
                elapsed_ms,
            ).scene[i]).surface != id,
{
    lemma_mapped(pre);
    let mapped = pre.space.mapped();
    let scene = pre.frame(events, elapsed_ms).scene;
    assert forall|i: int| 0 <= i < scene.len() implies {
        let e = #[trigger] scene[i];
        &&& pre.space.window(e.surface) matches Some(w)
        &&& w.alive
        &&& w.initial_configure_sent
        &&& e == element_of()(w)
    } by {
        assert(scene[i] == element_of()(mapped[i]));
        assert(mapped[i].is_mapped());
    }
}

/// Frame-callback exactness: a tick sends as many callbacks as there are
/// mapped windows. Each callback goes to a mapped window and its client and
/// carries the elapsed time; no two go to the same window; and every mapped
/// window gets one. Whether the window's content changed plays no part.
pub proof fn frame_callbacks_are_exact(pre: Model, events: Seq<InputEvent>, elapsed_ms: u64)
    requires
        pre.inv(),
    ensures
        pre.frame(events, elapsed_ms).callbacks.len() == pre.space.mapped().len(),
        forall|i: int|
            0 <= i < pre.frame(events, elapsed_ms).callbacks.len() ==> {
                let c = #[trigger] pre.frame(events, elapsed_ms).callbacks[i];
                &&& pre.space.window(c.surface) matches Some(w)
                &&& w.is_mapped()
                &&& c == callback_at(elapsed_ms)(w)
            },
        forall|i: int, j: int|
            0 <= i < j < pre.frame(events, elapsed_ms).callbacks.len() ==> (#[trigger] pre.frame(
                events,
                elapsed_ms,
            ).callbacks[i]).surface != (#[trigger] pre.frame(
                events,
                elapsed_ms,
            ).callbacks[j]).surface,
        forall|id: SurfaceId|
            (#[trigger] pre.space.window(id)) matches Some(w) ==> (w.is_mapped() ==> exists|
                i: int,
            |
                0 <= i < pre.frame(events, elapsed_ms).callbacks.len() && (#[trigger] pre.frame(
                    events,
                    elapsed_ms,
                ).callbacks[i]).surface == id),
{
    lemma_mapped(pre);
    let mapped = pre.space.mapped();
    let cbs = pre.frame(events, elapsed_ms).callbacks;
    assert forall|i: int| 0 <= i < cbs.len() implies {
        let c = #[trigger] cbs[i];
        &&& pre.space.window(c.surface) matches Some(w)
        &&& w.is_mapped()
        &&& c == callback_at(elapsed_ms)(w)
    } by {
        assert(cbs[i] == callback_at(elapsed_ms)(mapped[i]));
        assert(mapped[i].is_mapped());
    }
    assert forall|i: int, j: int| 0 <= i < j < cbs.len() implies (#[trigger] cbs[i]).surface != (
    #[trigger] cbs[j]).surface by {
        assert(mapped[i].surface.id != mapped[j].surface.id);
    }
    assert forall|id: SurfaceId| (#[trigger] pre.space.window(id)) matches Some(w) ==> (
    w.is_mapped() ==> exists|i: int|
        0 <= i < cbs.len() && (#[trigger] cbs[i]).surface == id) by {
        if pre.space.has(id) {
            let w = pre.space.window(id)->0;
            if w.is_mapped() {
                pre.space.lemma_window(id);
                let k = mapped.index_of(w);
                assert(cbs[k].surface == id);
            }
        }
    }
}

/// The scene and the callbacks of a frame name the same windows in the
/// same order: a window left out of the scene gets no callback.
pub proof fn callbacks_follow_the_scene(pre: Model, events: Seq<InputEvent>, elapsed_ms: u64)
    ensures
        pre.frame(events, elapsed_ms).scene.len() == pre.frame(events, elapsed_ms).callbacks.len(),
        forall|i: int|
            0 <= i < pre.frame(events, elapsed_ms).scene.len() ==> (#[trigger] pre.frame(
                events,
                elapsed_ms,
            ).scene[i]).surface == pre.frame(events, elapsed_ms).callbacks[i].surface,
{
}

/// A tick changes no live window but for the mark of change, which it
/// clears, and drops the destroyed ones. So a mapped window stays mapped
/// from tick to tick, and after a tick no window counts as changed.
pub proof fn ticks_keep_mapped_windows(pre: Model, events: Seq<InputEvent>, id: SurfaceId)
    requires
        pre.inv(),
    ensures
        pre.tick(events).space.window(id) == (if pre.space.live(id) {
            Some(pre.space.window(id)->0.presented())
        } else {
            None
        }),
        pre.space.window(id) matches Some(w) ==> (w.is_mapped() ==> (pre.tick(
            events,
        ).space.window(id) matches Some(n) && n.is_mapped())),
        pre.tick(events).space.window(id) matches Some(n) ==> n.alive && !n.damaged,
{
    pre.lemma_refresh();
}

proof fn lemma_mapped_after_refresh(ws: Seq<Window>)
    ensures
        ws.filter(living()).map_values(settled()).filter(shown()) == ws.filter(
            shown(),
        ).map_values(settled()),
    decreases ws.len(),
{
    reveal(Seq::filter);
    if ws.len() == 0 {
        assert(ws.filter(living()).map_values(settled()) =~= Seq::<Window>::empty());
        assert(ws.filter(shown()).map_values(settled()) =~= Seq::<Window>::empty());
    } else {
        let head = ws.drop_last();
        let w = ws.last();
        lemma_mapped_after_refresh(head);
        assert(ws =~= head.push(w));
        head.lemma_filter_push(w, living());
        head.lemma_filter_push(w, shown());
        let kept = head.filter(living());
        if w.alive {
            assert(kept.push(w).map_values(settled()) =~= kept.map_values(settled()).push(
                w.presented(),
            ));
            kept.map_values(settled()).lemma_filter_push(w.presented(), shown());
            if w.is_mapped() {
                assert(head.filter(shown()).push(w).map_values(settled()) =~= head.filter(
                    shown(),
                ).map_values(settled()).push(w.presented()));
            }
        }
    }
}

/// The order of composition is stable: the windows mapped after a tick are
/// the windows mapped before it, in the same order, each with the mark of
/// change cleared. So as long as the set of mapped windows stays, every
/// frame shows them in one and the same order.
pub proof fn composition_order_is_stable(pre: Model, events: Seq<InputEvent>)
    ensures
        pre.tick(events).space.mapped() == pre.space.mapped().map_values(settled()),
        pre.tick(events).space.scene().len() == pre.space.scene().len(),
        forall|i: int|
            0 <= i < pre.space.scene().len() ==> (#[trigger] pre.tick(events).space.scene()[i])
                == (crate::space::SceneElement { damaged: false, ..pre.space.scene()[i] }),
{
    lemma_mapped_after_refresh(pre.space.windows);
}

/// Client isolation, for a teardown: when client `a` is disconnected, it
/// and its buffers are forgotten and its windows destroyed; every other
/// client stays connected, keeps its buffers, and keeps each of its windows
/// exactly as it was.
pub proof fn disconnect_touches_one_client(pre: Model, a: ClientId)
    requires
        pre.inv(),
    ensures
        !pre.disconnect(a).registry.has_client(a),
        forall|c: ClientId|
            c != a ==> #[trigger] pre.disconnect(a).registry.has_client(c)
                == pre.registry.has_client(c),
        forall|c: ClientId, b: crate::ids::BufferId|
            #![trigger pre.disconnect(a).registry.owns(c, b)]
            pre.disconnect(a).registry.owns(c, b) == (c != a && pre.registry.owns(c, b)),
        forall|id: SurfaceId|
            #![trigger pre.disconnect(a).space.window(id)]
            pre.disconnect(a).space.window(id) == (match pre.space.window(id) {
                Some(w) => Some(
                    if w.surface.client == a {
                        w.destroyed()
                    } else {
                        w
                    },
                ),
                None => None,
            }),
        forall|id: SurfaceId| #[trigger]
            pre.disconnect(a).space.live(id) ==> pre.disconnect(a).space.window(
                id,
            )->0.surface.client != a,
{
    pre.registry.lemma_disconnect(a);
    pre.space.lemma_map(released(a));
}

/// Client isolation: a malformed commit disconnects the client at fault and
/// nobody else. After it, the client at fault has no live window left, and
/// each window of another client stands as before; in the frame of any
/// tick that follows, every mapped window of another client gets its
/// callback and no callback goes to the client at fault.
pub proof fn client_isolation(
    pre: Model,
    s: SurfaceId,
    events: Seq<InputEvent>,
    elapsed_ms: u64,
)
    requires
        pre.inv(),
        pre.committed(s) is Refused,
    ensures
        ({
            let a = pre.committed(s)->client;
            let post = pre.commit(s);
            let callbacks = post.frame(events, elapsed_ms).callbacks;
            &&& post == pre.disconnect(a)
            &&& pre.space.live(s) && pre.space.window(s)->0.surface.client == a
            &&& !post.registry.has_client(a)
            &&& forall|c: ClientId|
                c != a ==> #[trigger] post.registry.has_client(c) == pre.registry.has_client(c)
            &&& forall|id: SurfaceId|
                (#[trigger] pre.space.window(id)) matches Some(w) ==> (w.surface.client != a
                    ==> post.space.window(id) == Some(w))
            &&& forall|id: SurfaceId| #[trigger]
                post.space.live(id) ==> post.space.window(id)->0.surface.client != a
            &&& forall|id: SurfaceId|
                (#[trigger] pre.space.window(id)) matches Some(w) ==> (w.is_mapped()
                    && w.surface.client != a ==> exists|i: int|
                    0 <= i < callbacks.len() && (#[trigger] callbacks[i]).surface == id)
            &&& forall|i: int| 0 <= i < callbacks.len() ==> (#[trigger] callbacks[i]).client != a
        }),
{
    let a = pre.committed(s)->client;
    let post = pre.commit(s);
    let callbacks = post.frame(events, elapsed_ms).callbacks;
    disconnect_touches_one_client(pre, a);
    pre.lemma_disconnect(a);
    frame_callbacks_are_exact(post, events, elapsed_ms);
    assert forall|id: SurfaceId| (#[trigger] pre.space.window(id)) matches Some(w) ==> (
    w.surface.client != a ==> post.space.window(id) == Some(w)) by {
        let _ = post.space.window(id);
    }
    assert forall|id: SurfaceId| (#[trigger] pre.space.window(id)) matches Some(w) ==> (
    w.is_mapped() && w.surface.client != a ==> exists|i: int|
        0 <= i < callbacks.len() && (#[trigger] callbacks[i]).surface == id) by {
        let _ = post.space.window(id);
    }
    assert forall|i: int| 0 <= i < callbacks.len() implies (#[trigger] callbacks[i]).client
        != a by {
        let c = callbacks[i];
        assert(post.space.live(c.surface));
    }
}

} // verus!
