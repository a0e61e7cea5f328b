//! The orchestrator: two fixed phases over a shrinking working set. Phase
//! one applies the first matching content filter's first action across the
//! matched message's whole conversation; phase two protects conversations
//! under `Keep` and expires the rest by their newest member's age. Every
//! decision is returned as a log record.

use vstd::prelude::*;
use vstd::string::*;

use crate::client_ops::{Clock, ClientError, IMAPClientOps};
use crate::message::{Message, MessageV};
use crate::message_filter::{
    message_filter_matches, message_filter_wf, FilterAction, FilterActionV, MessageFilter,
    MessageFilterV,
};
use crate::state_filter::{
    state_filter_applies, StateAction, StateActionV, StateFilter, StateFilterV, Ttl,
};
use crate::thread::{thread_expired_at, thread_members_of, ThreadProcessor};

verus! {

/// Applies one content action to one message: star, flag as important, or
/// move to a label, through the client capability.
pub fn apply_message_action<C: IMAPClientOps>(
    client: &mut C,
    msg: &Message,
    action: &FilterAction,
) -> (r: Result<(), ClientError>)
{
    match action {
        FilterAction::Star => client.set_label(msg.uid, "\\Starred", msg.subject.as_str()),
        FilterAction::Flag => client.set_label(msg.uid, "\\Important", msg.subject.as_str()),
        FilterAction::Move(label) => {
            match client.ensure_label_exists(label.as_str()) {
                Ok(()) => client.uid_move(msg.uid, label.as_str()),
                Err(e) => Err(e),
            }
        },
    }
}

/// Applies one retention action to one message: delete, or move to a
/// label, through the client capability.
pub fn apply_state_action<C: IMAPClientOps>(
    client: &mut C,
    msg: &Message,
    action: &StateAction,
) -> (r: Result<(), ClientError>)
{
    match action {
        StateAction::Delete => client.uid_store_add_flags(msg.uid, "\\Deleted"),
        StateAction::Move(label) => {
            match client.ensure_label_exists(label.as_str()) {
                Ok(()) => client.uid_move(msg.uid, label.as_str()),
                Err(e) => Err(e),
            }
        },
    }
}

/// One conversation whose remote mutation failed even after retries: the
/// run goes on, and the affected uids are reported.
#[derive(Debug)]
pub struct OperationFailure {
    pub uids: Vec<u32>,
    pub error: ClientError,
}

/// One phase-one decision: the named filter matched these uids and the
/// action was applied to all of them.
#[derive(Debug)]
pub struct ContentDecision {
    pub filter_name: String,
    pub uids: Vec<u32>,
    pub action: FilterAction,
}

/// One phase-two decision: a protection under `Keep`, or an expiry with
/// the applied (or dry-run-suppressed) action.
#[derive(Debug)]
pub enum StateOutcome {
    Protected,
    Expired { action: StateAction, nerfed: bool },
}

/// One phase-two decision record.
#[derive(Debug)]
pub struct StateDecision {
    pub filter_name: String,
    pub uids: Vec<u32>,
    pub outcome: StateOutcome,
}

/// The first filter that matches the message and carries an action, with
/// that first action.
pub open spec fn first_action_filter(fs: Seq<MessageFilterV>, m: MessageV) -> Option<(
    int,
    FilterActionV,
)>
    decreases fs.len(),
{
    if fs.len() == 0 {
        None
    } else if message_filter_matches(fs[0], m) && fs[0].actions.len() > 0 {
        Some((0, fs[0].actions[0]))
    } else {
        match first_action_filter(fs.drop_first(), m) {
            Some((i, a)) => Some((i + 1, a)),
            None => None,
        }
    }
}

/// The first state filter that applies to the message.
pub open spec fn first_state_filter(fs: Seq<StateFilterV>, m: MessageV) -> Option<int>
    decreases fs.len(),
{
    if fs.len() == 0 {
        None
    } else if state_filter_applies(fs[0], m) {
        Some(0)
    } else {
        match first_state_filter(fs.drop_first(), m) {
            Some(i) => Some(i + 1),
            None => None,
        }
    }
}

/// Every configured content filter carries only valid glob patterns.
pub open spec fn all_filters_wf(fs: Seq<MessageFilterV>) -> bool {
    forall|i: int| 0 <= i < fs.len() ==> message_filter_wf(#[trigger] fs[i])
}

proof fn lemma_first_action_filter_at(fs: Seq<MessageFilterV>, m: MessageV, i: int)
    requires
        0 <= i <= fs.len(),
        forall|t: int|
            0 <= t < i ==> !(message_filter_matches(#[trigger] fs[t], m) && fs[t].actions.len()
                > 0),
        i < fs.len() ==> message_filter_matches(fs[i], m) && fs[i].actions.len() > 0,
    ensures
        i < fs.len() ==> first_action_filter(fs, m) == Some((i, fs[i].actions[0])),
        i == fs.len() ==> first_action_filter(fs, m) is None,
    decreases i,
{
    if fs.len() == 0 {
    } else if i == 0 {
    } else {
        let d = fs.drop_first();
        assert(forall|t: int| 0 <= t < d.len() ==> #[trigger] d[t] == fs[t + 1]);
        lemma_first_action_filter_at(d, m, i - 1);
    }
}

proof fn lemma_first_state_filter_at(fs: Seq<StateFilterV>, m: MessageV, i: int)
    requires
        0 <= i <= fs.len(),
        forall|t: int| 0 <= t < i ==> !state_filter_applies(#[trigger] fs[t], m),
        i < fs.len() ==> state_filter_applies(fs[i], m),
    ensures
        i < fs.len() ==> first_state_filter(fs, m) == Some(i),
        i == fs.len() ==> first_state_filter(fs, m) is None,
    decreases i,
{
    if fs.len() == 0 {
    } else if i == 0 {
    } else {
        let d = fs.drop_first();
        assert(forall|t: int| 0 <= t < d.len() ==> #[trigger] d[t] == fs[t + 1]);
        lemma_first_state_filter_at(d, m, i - 1);
    }
}

/// Whether some member of the list carries this uid.
pub open spec fn uid_in(ms: Seq<MessageV>, uid: u32) -> bool {
    exists|j: int| 0 <= j < ms.len() && (#[trigger] ms[j]).uid == uid
}

/// The uids of a message list, in order.
pub open spec fn uids_of(ms: Seq<MessageV>) -> Seq<u32> {
    ms.map_values(|m: MessageV| m.uid)
}

/// Whether some listed uid occurs among the message's.
fn uid_in_x(ms: &Vec<Message>, uid: u32) -> (r: bool)
    ensures
        r == uid_in(ms.deep_view(), uid),
{
    let n = ms.len();
    let mut j: usize = 0;
    while j < n
        invariant
            n == ms@.len(),
            j <= n,
            forall|t: int| 0 <= t < j ==> (#[trigger] ms.deep_view()[t]).uid != uid,
        decreases n - j,
    {
        if ms[j].uid == uid {
            proof {
                assert(ms.deep_view()[j as int].uid == uid);
            }
            return true;
        }
        j += 1;
    }
    false
}

/// The uids of the list, as a fresh vector.
fn uids_of_x(ms: &Vec<Message>) -> (r: Vec<u32>)
    ensures
        r@ == uids_of(ms.deep_view()),
{
    let mut out: Vec<u32> = Vec::new();
    let mut j: usize = 0;
    while j < ms.len()
        invariant
            j <= ms@.len(),
            out@ =~= uids_of(ms.deep_view().subrange(0, j as int)),
        decreases ms@.len() - j,
    {
        let ghost prev = out@;
        out.push(ms[j].uid);
        proof {
            assert(out@ =~= prev.push(ms.deep_view()[j as int].uid));
            assert(uids_of(ms.deep_view().subrange(0, j as int + 1)) =~= prev.push(
                ms.deep_view()[j as int].uid,
            ));
        }
        j += 1;
    }
    proof {
        assert(ms.deep_view().subrange(0, ms@.len() as int) =~= ms.deep_view());
        assert(out@ == uids_of(ms.deep_view()));
    }
    out
}

/// The predicate a removal applies: keep a message exactly when its uid is
/// not among the processed ones.
pub open spec fn keeps_uid_out(processed: Seq<MessageV>) -> spec_fn(MessageV) -> bool {
    |m: MessageV| !uid_in(processed, m.uid)
}

/// `a` is `b` with some messages filtered out: the order of the rest is
/// kept and nothing is duplicated or invented.
pub open spec fn filtered_from(a: Seq<MessageV>, b: Seq<MessageV>) -> bool {
    exists|p: spec_fn(MessageV) -> bool| a == #[trigger] b.filter(p)
}

/// Filtering by everything keeps the sequence.
proof fn lemma_filter_all(b: Seq<MessageV>)
    ensures
        b.filter(|m: MessageV| true) == b,
    decreases b.len(),
{
    reveal(Seq::filter);
    if b.len() > 0 {
        lemma_filter_all(b.drop_last());
        assert(b.drop_last().push(b.last()) =~= b);
    }
}

/// Two filters in a row are one filter by the conjunction.
proof fn lemma_filter_filter(
    s: Seq<MessageV>,
    p: spec_fn(MessageV) -> bool,
    q: spec_fn(MessageV) -> bool,
)
    ensures
        s.filter(p).filter(q) == s.filter((|m: MessageV| p(m) && q(m))),
    decreases s.len(),
{
    reveal(Seq::filter);
    if s.len() > 0 {
        lemma_filter_filter(s.drop_last(), p, q);
        let f = s.drop_last().filter(p);
        if p(s.last()) {
            assert(s.filter(p) == f.push(s.last()));
            assert(f.push(s.last()).drop_last() =~= f);
        }
    }
}

/// Every sequence is filtered from itself.
pub proof fn lemma_filtered_from_refl(b: Seq<MessageV>)
    ensures
        filtered_from(b, b),
{
    lemma_filter_all(b);
}

/// A further filtering step keeps the relation.
pub proof fn lemma_filtered_from_step(
    a: Seq<MessageV>,
    b: Seq<MessageV>,
    q: spec_fn(MessageV) -> bool,
)
    requires
        filtered_from(b, a),
    ensures
        filtered_from(b.filter(q), a),
{
    let p = choose|p: spec_fn(MessageV) -> bool| b == #[trigger] a.filter(p);
    lemma_filter_filter(a, p, q);
    assert(b.filter(q) == a.filter((|m: MessageV| p(m) && q(m))));
}

/// Filtering from is transitive.
pub proof fn lemma_filtered_from_trans(a: Seq<MessageV>, b: Seq<MessageV>, c: Seq<MessageV>)
    requires
        filtered_from(b, a),
        filtered_from(c, b),
    ensures
        filtered_from(c, a),
{
    let q = choose|q: spec_fn(MessageV) -> bool| c == #[trigger] b.filter(q);
    lemma_filtered_from_step(a, b, q);
}

/// Whether some phase-one decision of the log covers this uid.
pub open spec fn uid_logged_content(log: Seq<ContentDecision>, uid: u32) -> bool {
    exists|d: int| 0 <= d < log.len() && (#[trigger] log[d]@).uids.contains(uid)
}

/// Whether some phase-two decision of the log covers this uid.
pub open spec fn uid_logged_state(log: Seq<StateDecision>, uid: u32) -> bool {
    exists|d: int| 0 <= d < log.len() && (#[trigger] log[d]@).uids.contains(uid)
}

/// Whether some reported failure covers this uid.
pub open spec fn uid_logged_failure(fs: Seq<OperationFailure>, uid: u32) -> bool {
    exists|d: int| 0 <= d < fs.len() && (#[trigger] fs[d].uids@).contains(uid)
}

/// Drops every message whose uid occurs in `processed`, keeping the order
/// of the rest.
fn remove_processed(messages: &mut Vec<Message>, processed: &Vec<Message>)
    ensures
        final(messages).deep_view() == old(messages).deep_view().filter(
            keeps_uid_out(processed.deep_view()),
        ),
        final(messages).deep_view().len() <= old(messages).deep_view().len(),
        forall|j: int|
            0 <= j < final(messages).deep_view().len() ==> old(messages).deep_view().contains(
                #[trigger] final(messages).deep_view()[j],
            ) && !uid_in(processed.deep_view(), final(messages).deep_view()[j].uid),
        forall|j: int|
            0 <= j < old(messages).deep_view().len() && !uid_in(
                processed.deep_view(),
                (#[trigger] old(messages).deep_view()[j]).uid,
            ) ==> final(messages).deep_view().contains(old(messages).deep_view()[j]),
        (exists|j: int|
            0 <= j < old(messages).deep_view().len() && uid_in(
                processed.deep_view(),
                (#[trigger] old(messages).deep_view()[j]).uid,
            )) ==> final(messages).deep_view().len() < old(messages).deep_view().len(),
{
    let ghost oldv = messages.deep_view();
    let ghost pred = keeps_uid_out(processed.deep_view());
    let mut out: Vec<Message> = Vec::new();
    let ghost mut dropped: bool = false;
    let n = messages.len();
    let mut j: usize = 0;
    proof {
        reveal(Seq::filter);
        assert(oldv.subrange(0, 0).filter(pred) =~= Seq::<MessageV>::empty());
        assert(out.deep_view() =~= Seq::<MessageV>::empty());
    }
    while j < n
        invariant
            n == messages@.len(),
            oldv == messages.deep_view(),
            pred == keeps_uid_out(processed.deep_view()),
            oldv.len() == n,
            j <= n,
            out.deep_view() =~= oldv.subrange(0, j as int).filter(pred),
            out.deep_view().len() <= j,
            dropped ==> out.deep_view().len() < j,
            !dropped ==> out.deep_view().len() == j,
            dropped == (exists|t: int|
                0 <= t < j && uid_in(processed.deep_view(), (#[trigger] oldv[t]).uid)),
            forall|t: int|
                0 <= t < out.deep_view().len() ==> oldv.contains(#[trigger] out.deep_view()[t])
                    && !uid_in(processed.deep_view(), out.deep_view()[t].uid),
            forall|t: int|
                0 <= t < j && !uid_in(processed.deep_view(), (#[trigger] oldv[t]).uid) ==> out
                    .deep_view().contains(oldv[t]),
        decreases n - j,
    {
        let keep = !uid_in_x(processed, messages[j].uid);
        proof {
            reveal(Seq::filter);
            let pre2 = oldv.subrange(0, j as int + 1);
            assert(pre2.drop_last() =~= oldv.subrange(0, j as int));
            assert(pre2.last() == oldv[j as int]);
            assert(pred(oldv[j as int]) == keep);
        }
        if keep {
            let ghost prev = out.deep_view();
            out.push(messages[j].clone());
            proof {
                assert(out.deep_view() =~= prev.push(oldv[j as int]));
                assert(oldv.contains(oldv[j as int])) by {
                    assert(oldv[j as int] == oldv[j as int]);
                }
                assert forall|t: int|
                    0 <= t < j + 1 && !uid_in(
                        processed.deep_view(),
                        (#[trigger] oldv[t]).uid,
                    ) implies out.deep_view().contains(oldv[t]) by {
                    if t < j {
                        let w = choose|w: int| 0 <= w < prev.len() && prev[w] == oldv[t];
                        assert(out.deep_view()[w] == oldv[t]);
                    } else {
                        assert(out.deep_view()[prev.len() as int] == oldv[t]);
                    }
                }
            }
        } else {
            proof {
                dropped = true;
            }
        }
        j += 1;
    }
    proof {
        assert(oldv.subrange(0, n as int) =~= oldv);
    }
    *messages = out;
}

/// A run-ending failure: a content filter configured with an unusable glob
/// pattern, or a client failure.
#[derive(Debug)]
pub enum RunError {
    BadFilterPattern(String),
    Client(ClientError),
}

/// The engine bound to a client: the configured content and state filters,
/// applied in order over the fetched working set.
pub struct IMAPFilter<C: IMAPClientOps> {
    pub client: C,
    pub message_filters: Vec<MessageFilter>,
    pub state_filters: Vec<StateFilter>,
}

impl<C: IMAPClientOps> IMAPFilter<C> {
    /// Binds the engine to a client and its configuration.
    pub fn new(client: C, message_filters: Vec<MessageFilter>, state_filters: Vec<StateFilter>)
        -> (r: IMAPFilter<C>)
        ensures
            r.message_filters == message_filters,
            r.state_filters == state_filters,
    {
        IMAPFilter { client, message_filters, state_filters }
    }

    /// Phase one: repeatedly, the first configured filter with an action
    /// that matches a message of the working set has that first action
    /// applied across the message's conversation, and the acted-upon
    /// messages leave the set; it ends when no remaining message matches
    /// any action-carrying filter.
    pub fn process_message_filters_with_threads(
        &mut self,
        messages: &mut Vec<Message>,
        thread_processor: &ThreadProcessor,
    ) -> (r: (Vec<ContentDecision>, Vec<OperationFailure>))
        requires
            all_filters_wf(self.message_filters.deep_view()),
        ensures
            final(self).message_filters == old(self).message_filters,
            final(self).state_filters == old(self).state_filters,
            forall|j: int|
                0 <= j < final(messages).deep_view().len() ==> first_action_filter(
                    final(self).message_filters.deep_view(),
                    #[trigger] final(messages).deep_view()[j],
                ) is None,
            forall|j: int|
                0 <= j < final(messages).deep_view().len() ==> old(messages).deep_view().contains(
                    #[trigger] final(messages).deep_view()[j],
                ),
            filtered_from(final(messages).deep_view(), old(messages).deep_view()),
            forall|j: int|
                0 <= j < old(messages).deep_view().len() ==> final(messages).deep_view().contains(
                    #[trigger] old(messages).deep_view()[j],
                ) || uid_logged_content(r.0@, old(messages).deep_view()[j].uid)
                    || uid_logged_failure(r.1@, old(messages).deep_view()[j].uid),
            forall|d: int|
                0 <= d < r.0.len() ==> content_decision_sound(
                    #[trigger] r.0@[d]@,
                    final(self).message_filters.deep_view(),
                    thread_processor@,
                    old(messages).deep_view(),
                ),
    {
        let ghost fsv = self.message_filters.deep_view();
        let ghost original = messages.deep_view();
        let mut log: Vec<ContentDecision> = Vec::new();
        let mut failures: Vec<OperationFailure> = Vec::new();
        let mut i: usize = 0;
        proof {
            assert(forall|j: int|
                0 <= j < original.len() ==> original.contains(#[trigger] original[j]));
            lemma_filtered_from_refl(original);
        }
        while i < messages.len()
            invariant
                all_filters_wf(fsv),
                fsv == self.message_filters.deep_view(),
                self.message_filters == old(self).message_filters,
                self.state_filters == old(self).state_filters,
                i <= messages@.len(),
                forall|j: int|
                    0 <= j < i ==> first_action_filter(
                        fsv,
                        #[trigger] messages.deep_view()[j],
                    ) is None,
                forall|j: int|
                    0 <= j < messages.deep_view().len() ==> original.contains(
                        #[trigger] messages.deep_view()[j],
                    ),
                filtered_from(messages.deep_view(), original),
                forall|j: int|
                    0 <= j < original.len() ==> messages.deep_view().contains(
                        #[trigger] original[j],
                    ) || uid_logged_content(log@, original[j].uid) || uid_logged_failure(
                        failures@,
                        original[j].uid,
                    ),
                forall|d: int|
                    0 <= d < log.len() ==> content_decision_sound(
                        #[trigger] log@[d]@,
                        fsv,
                        thread_processor@,
                        original,
                    ),
            decreases messages@.len(), messages@.len() - i,
        {
            // find the first filter that matches and carries an action
            let fn_count = self.message_filters.len();
            let mut fi: usize = 0;
            let mut hit: bool = false;
            while fi < fn_count && !hit
                invariant
                    all_filters_wf(fsv),
                    fsv == self.message_filters.deep_view(),
                    fn_count == fsv.len(),
                    fi <= fn_count,
                    i < messages.deep_view().len(),
                    forall|t: int|
                        0 <= t < fi ==> !(message_filter_matches(
                            #[trigger] fsv[t],
                            messages.deep_view()[i as int],
                        ) && fsv[t].actions.len() > 0),
                    hit ==> fi < fn_count && message_filter_matches(
                        fsv[fi as int],
                        messages.deep_view()[i as int],
                    ) && fsv[fi as int].actions.len() > 0,
                decreases fn_count - fi + (if hit { 0int } else { 1int }),
            {
                proof {
                    assert(message_filter_wf(fsv[fi as int]));
                    assert(self.message_filters[fi as int]@ == fsv[fi as int]);
                }
                if self.message_filters[fi].matches(&messages[i])
                    && self.message_filters[fi].actions.len() > 0 {
                    hit = true;
                } else {
                    fi += 1;
                }
            }
            if hit {
                proof {
                    lemma_first_action_filter_at(fsv, messages.deep_view()[i as int], fi as int);
                }
                let action = self.message_filters[fi].actions[0].clone();
                let name = self.message_filters[fi].name.clone();
                let processed = match thread_processor.process_thread_message_filter(
                    &mut self.client,
                    &messages[i],
                    &action,
                ) {
                    Ok(p) => p,
                    Err(e) => {
                        // fatal for this conversation only: drop it from
                        // the working set and go on with the rest
                        let members = thread_processor.members_for(&messages[i]);
                        let ghost prevfail = failures@;
                        failures.push(
                            OperationFailure { uids: uids_of_x(&members), error: e },
                        );
                        let ghost before = messages.deep_view();
                        proof {
                            crate::thread::lemma_members_carry_uid(
                                thread_processor@,
                                messages.deep_view()[i as int],
                            );
                        }
                        remove_processed(messages, &members);
                        proof {
                            assert(uid_in(members.deep_view(), before[i as int].uid));
                            assert(messages.deep_view().len() < before.len());
                            lemma_filtered_from_step(
                                original,
                                before,
                                keeps_uid_out(members.deep_view()),
                            );
                            assert(failures@.len() == prevfail.len() + 1);
                            assert(forall|d: int|
                                0 <= d < prevfail.len() ==> failures@[d] == prevfail[d]);
                            assert(failures@[prevfail.len() as int].uids@ == uids_of(
                                members.deep_view(),
                            ));
                            assert forall|j: int| 0 <= j < original.len() implies messages
                                .deep_view().contains(#[trigger] original[j])
                                || uid_logged_content(log@, original[j].uid)
                                || uid_logged_failure(failures@, original[j].uid) by {
                                let x = original[j];
                                if uid_logged_failure(prevfail, x.uid) {
                                    let d0 = choose|d0: int|
                                        0 <= d0 < prevfail.len() && (#[trigger] prevfail[
                                            d0].uids@).contains(x.uid);
                                    assert(failures@[d0].uids@.contains(x.uid));
                                } else if before.contains(x) {
                                    if uid_in(members.deep_view(), x.uid) {
                                        let t = choose|t: int|
                                            0 <= t < members.deep_view().len() && (
                                            #[trigger] members.deep_view()[t]).uid == x.uid;
                                        assert(uids_of(members.deep_view())[t] == x.uid);
                                        assert(failures@[prevfail.len() as int].uids@.contains(
                                            x.uid,
                                        ));
                                    } else {
                                        let w = choose|w: int|
                                            0 <= w < before.len() && before[w] == x;
                                        assert(messages.deep_view().contains(before[w]));
                                    }
                                }
                            }
                        }
                        i = 0;
                        continue;
                    },
                };
                let uids = uids_of_x(&processed);
                let ghost mv = messages.deep_view()[i as int];
                let ghost prevlog = log@;
                log.push(ContentDecision { filter_name: name, uids, action });
                proof {
                    assert(log@.len() == prevlog.len() + 1);
                    assert(forall|d: int| 0 <= d < prevlog.len() ==> log@[d] == prevlog[d]);
                    let dv = log@[prevlog.len() as int]@;
                    assert(original.contains(mv));
                    assert(fsv[fi as int].actions == self.message_filters[fi as int]
                        .actions.deep_view());
                    assert(fsv[fi as int].actions[0] == self.message_filters[fi as int].actions[0]@);
                    assert(dv.action == fsv[fi as int].actions[0]);
                    assert(dv.uids == uids_of(thread_members_of(thread_processor@, mv)));
                    assert(first_action_filter_trigger(fsv, mv) == first_action_filter(fsv, mv));
                    assert(content_decision_sound(dv, fsv, thread_processor@, original));
                }
                let ghost before = messages.deep_view();
                // the processed conversation carries this message's uid, so
                // the set shrinks
                proof {
                    crate::thread::lemma_members_carry_uid(
                        thread_processor@,
                        messages.deep_view()[i as int],
                    );
                }
                remove_processed(messages, &processed);
                proof {
                    assert(uid_in(processed.deep_view(), before[i as int].uid));
                    assert(messages.deep_view().len() < before.len());
                    lemma_filtered_from_step(
                        original,
                        before,
                        keeps_uid_out(processed.deep_view()),
                    );
                    assert(log@[prevlog.len() as int]@.uids == uids_of(processed.deep_view()));
                    assert forall|j: int| 0 <= j < original.len() implies messages.deep_view()
                        .contains(#[trigger] original[j]) || uid_logged_content(
                        log@,
                        original[j].uid,
                    ) || uid_logged_failure(failures@, original[j].uid) by {
                        let x = original[j];
                        if uid_logged_content(prevlog, x.uid) {
                            let d0 = choose|d0: int|
                                0 <= d0 < prevlog.len() && (#[trigger] prevlog[d0]@).uids.contains(
                                    x.uid,
                                );
                            assert(log@[d0]@.uids.contains(x.uid));
                        } else if uid_logged_failure(failures@, x.uid) {
                        } else if before.contains(x) {
                            if uid_in(processed.deep_view(), x.uid) {
                                let t = choose|t: int|
                                    0 <= t < processed.deep_view().len() && (
                                    #[trigger] processed.deep_view()[t]).uid == x.uid;
                                assert(uids_of(processed.deep_view())[t] == x.uid);
                                assert(log@[prevlog.len() as int]@.uids.contains(x.uid));
                            } else {
                                let w = choose|w: int| 0 <= w < before.len() && before[w] == x;
                                assert(messages.deep_view().contains(before[w]));
                            }
                        }
                    }
                }
                i = 0;
            } else {
                proof {
                    lemma_first_action_filter_at(
                        fsv,
                        messages.deep_view()[i as int],
                        fsv.len() as int,
                    );
                }
                i += 1;
            }
        }
        (log, failures)
    }

    /// Phase two: for each remaining message, the first applicable state
    /// filter decides. `Keep` protects: the message leaves the working set
    /// untouched. Otherwise the conversation's newest member is held
    /// against the time-to-live at the injected clock's instant; on expiry
    /// the action is applied — or suppressed when the filter is a dry run —
    /// and the conversation leaves the set.
    pub fn process_state_filters_with_threads<K: Clock>(
        &mut self,
        messages: &mut Vec<Message>,
        thread_processor: &ThreadProcessor,
        clock: &K,
    ) -> (r: (Vec<StateDecision>, Vec<OperationFailure>))
        ensures
            final(self).message_filters == old(self).message_filters,
            final(self).state_filters == old(self).state_filters,
            forall|j: int|
                0 <= j < final(messages).deep_view().len() ==> old(messages).deep_view().contains(
                    #[trigger] final(messages).deep_view()[j],
                ),
            filtered_from(final(messages).deep_view(), old(messages).deep_view()),
            forall|j: int|
                0 <= j < final(messages).deep_view().len() ==> match first_state_filter(
                    final(self).state_filters.deep_view(),
                    #[trigger] final(messages).deep_view()[j],
                ) {
                    Some(fi) => !(final(self).state_filters.deep_view()[fi].ttl is Keep),
                    None => true,
                },
            forall|j: int|
                0 <= j < old(messages).deep_view().len() ==> final(messages).deep_view().contains(
                    #[trigger] old(messages).deep_view()[j],
                ) || uid_logged_state(r.0@, old(messages).deep_view()[j].uid)
                    || uid_logged_failure(r.1@, old(messages).deep_view()[j].uid),
            forall|d: int|
                0 <= d < r.0.len() ==> state_decision_sound(
                    #[trigger] r.0@[d]@,
                    final(self).state_filters.deep_view(),
                    thread_processor@,
                    old(messages).deep_view(),
                ),
    {
        let ghost sfv = self.state_filters.deep_view();
        let ghost tmv = thread_processor@;
        let ghost original = messages.deep_view();
        let mut log: Vec<StateDecision> = Vec::new();
        let mut failures: Vec<OperationFailure> = Vec::new();
        let mut i: usize = 0;
        proof {
            assert(forall|j: int|
                0 <= j < original.len() ==> original.contains(#[trigger] original[j]));
            lemma_filtered_from_refl(original);
        }
        while i < messages.len()
            invariant
                sfv == self.state_filters.deep_view(),
                tmv == thread_processor@,
                self.message_filters == old(self).message_filters,
                self.state_filters == old(self).state_filters,
                i <= messages@.len(),
                forall|j: int|
                    0 <= j < messages.deep_view().len() ==> original.contains(
                        #[trigger] messages.deep_view()[j],
                    ),
                filtered_from(messages.deep_view(), original),
                forall|j: int|
                    0 <= j < i ==> match first_state_filter(
                        sfv,
                        #[trigger] messages.deep_view()[j],
                    ) {
                        Some(fi) => !(sfv[fi].ttl is Keep),
                        None => true,
                    },
                forall|j: int|
                    0 <= j < original.len() ==> messages.deep_view().contains(
                        #[trigger] original[j],
                    ) || uid_logged_state(log@, original[j].uid) || uid_logged_failure(
                        failures@,
                        original[j].uid,
                    ),
                forall|d: int|
                    0 <= d < log.len() ==> state_decision_sound(
                        #[trigger] log@[d]@,
                        sfv,
                        tmv,
                        original,
                    ),
            decreases messages@.len(), messages@.len() - i,
        {
            let ghost mv = messages.deep_view()[i as int];
            // find the first applicable state filter
            let fn_count = self.state_filters.len();
            let mut fi: usize = 0;
            let mut hit: bool = false;
            while fi < fn_count && !hit
                invariant
                    sfv == self.state_filters.deep_view(),
                    fn_count == sfv.len(),
                    fi <= fn_count,
                    i < messages.deep_view().len(),
                    mv == messages.deep_view()[i as int],
                    forall|t: int|
                        0 <= t < fi ==> !state_filter_applies(#[trigger] sfv[t], mv),
                    hit ==> fi < fn_count && state_filter_applies(sfv[fi as int], mv),
                decreases fn_count - fi + (if hit { 0int } else { 1int }),
            {
                proof {
                    assert(self.state_filters[fi as int]@ == sfv[fi as int]);
                }
                if self.state_filters[fi].matches(&messages[i]) {
                    hit = true;
                } else {
                    fi += 1;
                }
            }
            if !hit {
                proof {
                    lemma_first_state_filter_at(sfv, mv, sfv.len() as int);
                }
                i += 1;
            } else {
                proof {
                    lemma_first_state_filter_at(sfv, mv, fi as int);
                }
                let is_keep = match self.state_filters[fi].ttl {
                    Ttl::Keep => true,
                    _ => false,
                };
                proof {
                    assert(is_keep == (sfv[fi as int].ttl is Keep)) by {
                        assert(self.state_filters[fi as int]@ == sfv[fi as int]);
                    }
                }
                if is_keep {
                    // protection is message-scoped: everything carrying
                    // this uid leaves the working set, nothing is applied
                    let name = self.state_filters[fi].name.clone();
                    let mut uids: Vec<u32> = Vec::new();
                    uids.push(messages[i].uid);
                    let mut single: Vec<Message> = Vec::new();
                    single.push(messages[i].clone());
                    let ghost prevlog = log@;
                    let ghost before = messages.deep_view();
                    log.push(StateDecision { filter_name: name, uids, outcome: StateOutcome::Protected });
                    remove_processed(messages, &single);
                    proof {
                        assert(single.deep_view() =~= seq![mv]);
                        assert(log@.len() == prevlog.len() + 1);
                        assert(forall|d: int| 0 <= d < prevlog.len() ==> log@[d] == prevlog[d]);
                        let dv = log@[prevlog.len() as int]@;
                        assert(dv.uids =~= seq![mv.uid]);
                        assert(original.contains(mv));
                        assert(state_decision_sound(dv, sfv, tmv, original));
                        assert(uid_in(single.deep_view(), before[i as int].uid)) by {
                            assert(single.deep_view()[0].uid == mv.uid);
                        }
                        assert(messages.deep_view().len() < before.len());
                        lemma_filtered_from_step(
                            original,
                            before,
                            keeps_uid_out(single.deep_view()),
                        );
                        assert forall|j: int| 0 <= j < original.len() implies messages.deep_view()
                            .contains(#[trigger] original[j]) || uid_logged_state(
                            log@,
                            original[j].uid,
                        ) || uid_logged_failure(failures@, original[j].uid) by {
                            let x = original[j];
                            if uid_logged_state(prevlog, x.uid) {
                                let d0 = choose|d0: int|
                                    0 <= d0 < prevlog.len() && (#[trigger] prevlog[
                                        d0]@).uids.contains(x.uid);
                                assert(log@[d0]@.uids.contains(x.uid));
                            } else if uid_logged_failure(failures@, x.uid) {
                            } else if before.contains(x) {
                                if uid_in(single.deep_view(), x.uid) {
                                    assert(dv.uids[0] == x.uid);
                                    assert(log@[prevlog.len() as int]@.uids.contains(x.uid));
                                } else {
                                    let w = choose|w: int|
                                        0 <= w < before.len() && before[w] == x;
                                    assert(messages.deep_view().contains(before[w]));
                                }
                            }
                        }
                    }
                    i = 0;
                } else {
                    let action = self.state_filters[fi].action.clone();
                    let now = clock.now();
                    let filter_ref = &self.state_filters[fi];
                    let processed = match thread_processor.process_thread_state_filter_at(
                        &mut self.client,
                        &messages[i],
                        filter_ref,
                        &action,
                        now,
                    ) {
                        Ok(p) => p,
                        Err(e) => {
                            // fatal for this conversation only: drop it
                            // from the working set and go on with the rest
                            let members = thread_processor.members_for(&messages[i]);
                            let ghost prevfail = failures@;
                            failures.push(
                                OperationFailure { uids: uids_of_x(&members), error: e },
                            );
                            let ghost before = messages.deep_view();
                            proof {
                                crate::thread::lemma_members_carry_uid(tmv, mv);
                            }
                            remove_processed(messages, &members);
                            proof {
                                assert(uid_in(members.deep_view(), before[i as int].uid));
                                assert(messages.deep_view().len() < before.len());
                                lemma_filtered_from_step(
                                    original,
                                    before,
                                    keeps_uid_out(members.deep_view()),
                                );
                                assert(failures@.len() == prevfail.len() + 1);
                                assert(forall|d: int|
                                    0 <= d < prevfail.len() ==> failures@[d] == prevfail[d]);
                                assert(failures@[prevfail.len() as int].uids@ == uids_of(
                                    members.deep_view(),
                                ));
                                assert forall|j: int| 0 <= j < original.len() implies messages
                                    .deep_view().contains(#[trigger] original[j])
                                    || uid_logged_state(log@, original[j].uid)
                                    || uid_logged_failure(failures@, original[j].uid) by {
                                    let x = original[j];
                                    if uid_logged_failure(prevfail, x.uid) {
                                        let d0 = choose|d0: int|
                                            0 <= d0 < prevfail.len() && (#[trigger] prevfail[
                                                d0].uids@).contains(x.uid);
                                        assert(failures@[d0].uids@.contains(x.uid));
                                    } else if uid_logged_state(log@, x.uid) {
                                    } else if before.contains(x) {
                                        if uid_in(members.deep_view(), x.uid) {
                                            let t = choose|t: int|
                                                0 <= t < members.deep_view().len() && (
                                                #[trigger] members.deep_view()[t]).uid == x.uid;
                                            assert(uids_of(members.deep_view())[t] == x.uid);
                                            assert(failures@[prevfail.len() as int].uids@.contains(
                                                x.uid,
                                            ));
                                        } else {
                                            let w = choose|w: int|
                                                0 <= w < before.len() && before[w] == x;
                                            assert(messages.deep_view().contains(before[w]));
                                        }
                                    }
                                }
                            }
                            i = 0;
                            continue;
                        },
                    };
                    if processed.len() > 0 {
                        let name = self.state_filters[fi].name.clone();
                        let uids = uids_of_x(&processed);
                        let nerfed = self.state_filters[fi].nerf;
                        let ghost prevlog = log@;
                        log.push(
                            StateDecision {
                                filter_name: name,
                                uids,
                                outcome: StateOutcome::Expired { action, nerfed },
                            },
                        );
                        let ghost before = messages.deep_view();
                        proof {
                            crate::thread::lemma_members_carry_uid(tmv, mv);
                        }
                        remove_processed(messages, &processed);
                        proof {
                            assert(log@.len() == prevlog.len() + 1);
                            assert(forall|d: int|
                                0 <= d < prevlog.len() ==> log@[d] == prevlog[d]);
                            let dv = log@[prevlog.len() as int]@;
                            assert(original.contains(mv));
                            assert(thread_expired_at(tmv, sfv[fi as int], mv, now as int));
                            assert(dv.uids == uids_of(thread_members_of(tmv, mv)));
                            assert(state_decision_sound(dv, sfv, tmv, original));
                            assert(uid_in(processed.deep_view(), before[i as int].uid));
                            assert(messages.deep_view().len() < before.len());
                            lemma_filtered_from_step(
                                original,
                                before,
                                keeps_uid_out(processed.deep_view()),
                            );
                            assert forall|j: int| 0 <= j < original.len() implies messages
                                .deep_view().contains(#[trigger] original[j]) || uid_logged_state(
                                log@,
                                original[j].uid,
                            ) || uid_logged_failure(failures@, original[j].uid) by {
                                let x = original[j];
                                if uid_logged_state(prevlog, x.uid) {
                                    let d0 = choose|d0: int|
                                        0 <= d0 < prevlog.len() && (#[trigger] prevlog[
                                            d0]@).uids.contains(x.uid);
                                    assert(log@[d0]@.uids.contains(x.uid));
                                } else if uid_logged_failure(failures@, x.uid) {
                                } else if before.contains(x) {
                                    if uid_in(processed.deep_view(), x.uid) {
                                        let t = choose|t: int|
                                            0 <= t < processed.deep_view().len() && (
                                            #[trigger] processed.deep_view()[t]).uid == x.uid;
                                        assert(uids_of(processed.deep_view())[t] == x.uid);
                                        assert(log@[prevlog.len() as int]@.uids.contains(x.uid));
                                    } else {
                                        let w = choose|w: int|
                                            0 <= w < before.len() && before[w] == x;
                                        assert(messages.deep_view().contains(before[w]));
                                    }
                                }
                            }
                        }
                        i = 0;
                    } else {
                        i += 1;
                    }
                }
            }
        }
        (log, failures)
    }
}

/// The mathematical value of a [`ContentDecision`].
pub struct ContentDecisionV {
    pub filter_name: Seq<char>,
    pub uids: Seq<u32>,
    pub action: FilterActionV,
}

impl View for ContentDecision {
    type V = ContentDecisionV;

    open spec fn view(&self) -> ContentDecisionV {
        ContentDecisionV { filter_name: self.filter_name@, uids: self.uids@, action: self.action@ }
    }
}

/// Soundness of one phase-one decision: it stems from some fetched message
/// whose first action-carrying filter is the named one, records that
/// filter's first action, and covers exactly the uids of the message's
/// conversation.
pub open spec fn content_decision_sound(
    d: ContentDecisionV,
    fs: Seq<MessageFilterV>,
    tm: crate::thread::ThreadMapV,
    msgs: Seq<MessageV>,
) -> bool {
    exists|m: MessageV, fi: int|
        #![trigger fs[fi], first_action_filter_trigger(fs, m)]
        msgs.contains(m) && 0 <= fi < fs.len() && first_action_filter(fs, m) == Some(
            (fi, fs[fi].actions[0]),
        ) && d.filter_name == fs[fi].name && d.action == fs[fi].actions[0] && d.uids == uids_of(
            thread_members_of(tm, m),
        )
}

/// A trigger marker for quantifying over messages in decision soundness.
pub open spec fn first_action_filter_trigger(fs: Seq<MessageFilterV>, m: MessageV) -> Option<(
    int,
    FilterActionV,
)> {
    first_action_filter(fs, m)
}

/// The mathematical value of a [`StateDecision`].
pub struct StateDecisionV {
    pub filter_name: Seq<char>,
    pub uids: Seq<u32>,
    pub outcome_protected: bool,
    pub outcome_action: Option<StateActionV>,
    pub outcome_nerfed: bool,
}

impl View for StateDecision {
    type V = StateDecisionV;

    open spec fn view(&self) -> StateDecisionV {
        StateDecisionV {
            filter_name: self.filter_name@,
            uids: self.uids@,
            outcome_protected: self.outcome is Protected,
            outcome_action: match self.outcome {
                StateOutcome::Protected => None,
                StateOutcome::Expired { ref action, .. } => Some(action@),
            },
            outcome_nerfed: match self.outcome {
                StateOutcome::Protected => false,
                StateOutcome::Expired { nerfed, .. } => nerfed,
            },
        }
    }
}

/// Soundness of one phase-two decision: it stems from some fetched message
/// whose first applicable state filter is the named one; a protection
/// records exactly that message under a `Keep` filter, an expiry records
/// the conversation's uids under a filter whose time-to-live had run out
/// at some instant, with that filter's action and dry-run flag.
pub open spec fn state_decision_sound(
    d: StateDecisionV,
    sfs: Seq<StateFilterV>,
    tm: crate::thread::ThreadMapV,
    msgs: Seq<MessageV>,
) -> bool {
    exists|m: MessageV, fi: int|
        #![trigger sfs[fi], first_state_filter(sfs, m)]
        msgs.contains(m) && first_state_filter(sfs, m) == Some(fi) && 0 <= fi < sfs.len()
            && d.filter_name == sfs[fi].name && if d.outcome_protected {
            sfs[fi].ttl is Keep && d.uids == seq![m.uid] && d.outcome_action is None
        } else {
            &&& !(sfs[fi].ttl is Keep)
            &&& d.outcome_action == Some(sfs[fi].action)
            &&& d.outcome_nerfed == sfs[fi].nerf
            &&& d.uids == uids_of(thread_members_of(tm, m))
            &&& exists|now: int| thread_expired_at(tm, sfs[fi], m, now)
        }
}


/// Soundness of a whole run's report: for the fetched message set (which
/// only the client knows) and its thread map, every logged decision is
/// sound, and what is left untouched is a filtered remainder of the fetch
/// that no action-carrying content filter matches and no `Keep` filter
/// claims first.
pub open spec fn report_sound(
    rep: RunReport,
    mfs: Seq<MessageFilterV>,
    sfs: Seq<StateFilterV>,
) -> bool {
    exists|fetched: Seq<MessageV>, tm: crate::thread::ThreadMapV|
        #![trigger crate::thread::thread_map_complete(tm, fetched)]
        crate::thread::thread_map_complete(tm, fetched) && (forall|d: int|
            0 <= d < rep.content.len() ==> content_decision_sound(
                #[trigger] rep.content[d]@,
                mfs,
                tm,
                fetched,
            )) && (forall|d: int|
            0 <= d < rep.state.len() ==> state_decision_sound(
                #[trigger] rep.state[d]@,
                sfs,
                tm,
                fetched,
            )) && filtered_from(rep.untouched.deep_view(), fetched) && (forall|j: int|
            0 <= j < rep.untouched.deep_view().len() ==> first_action_filter(
                mfs,
                #[trigger] rep.untouched.deep_view()[j],
            ) is None) && (forall|j: int|
            0 <= j < rep.untouched.deep_view().len() ==> match first_state_filter(
                sfs,
                #[trigger] rep.untouched.deep_view()[j],
            ) {
                Some(fi) => !(sfs[fi].ttl is Keep),
                None => true,
            })
}

/// What one run produced: the phase-one and phase-two decision records and
/// the messages no rule touched.
#[derive(Debug)]
pub struct RunReport {
    pub content: Vec<ContentDecision>,
    pub state: Vec<StateDecision>,
    pub failures: Vec<OperationFailure>,
    pub untouched: Vec<Message>,
}

impl<C: IMAPClientOps> IMAPFilter<C> {
    /// One whole run: fetch the working set from the selected mailbox,
    /// build the thread map, apply phase one and then phase two, and log
    /// out. Demands valid filter patterns;
    /// [`IMAPFilter::execute_checked`] establishes that first.
    pub fn execute<K: Clock>(&mut self, clock: &K) -> (r: Result<RunReport, ClientError>)
        requires
            all_filters_wf(old(self).message_filters.deep_view()),
        ensures
            r matches Ok(rep) ==> report_sound(
                rep,
                final(self).message_filters.deep_view(),
                final(self).state_filters.deep_view(),
            ),
    {
        match self.client.select("INBOX") {
            Ok(()) => {},
            Err(e) => {
                return Err(e);
            },
        }
        match self.client.search("ALL") {
            Ok(_) => {},
            Err(e) => {
                return Err(e);
            },
        }
        let mut messages = match self.client.fetch_messages("ALL") {
            Ok(ms) => ms,
            Err(e) => {
                return Err(e);
            },
        };
        let ghost fetched = messages.deep_view();
        let thread_processor = ThreadProcessor::new(&messages);
        let ghost tm = thread_processor@;
        let (content, mut failures) = self.process_message_filters_with_threads(
            &mut messages,
            &thread_processor,
        );
        let ghost mid = messages.deep_view();
        let ghost mfs = self.message_filters.deep_view();
        let (state, mut state_failures) = self.process_state_filters_with_threads(
            &mut messages,
            &thread_processor,
            clock,
        );
        let ghost finals = messages.deep_view();
        let ghost sfs = self.state_filters.deep_view();
        proof {
            // the phase-two facts, stated over the fetched set
            assert forall|d: int| 0 <= d < state@.len() implies state_decision_sound(
                #[trigger] state@[d]@,
                sfs,
                tm,
                fetched,
            ) by {
                assert(state_decision_sound(state@[d]@, sfs, tm, mid));
                let (m, fi) = choose|m: MessageV, fi: int|
                    #![trigger sfs[fi], first_state_filter(sfs, m)]
                    mid.contains(m) && first_state_filter(sfs, m) == Some(fi) && 0 <= fi
                        < sfs.len() && state@[d]@.filter_name == sfs[fi].name && if state@[
                        d]@.outcome_protected {
                        sfs[fi].ttl is Keep && state@[d]@.uids == seq![m.uid] && state@[
                            d]@.outcome_action is None
                    } else {
                        &&& !(sfs[fi].ttl is Keep)
                        &&& state@[d]@.outcome_action == Some(sfs[fi].action)
                        &&& state@[d]@.outcome_nerfed == sfs[fi].nerf
                        &&& state@[d]@.uids == uids_of(thread_members_of(tm, m))
                        &&& exists|now: int| thread_expired_at(tm, sfs[fi], m, now)
                    };
                let w = choose|w: int| 0 <= w < mid.len() && mid[w] == m;
                assert(fetched.contains(mid[w]));
                assert(state_decision_sound(state@[d]@, sfs, tm, fetched));
            }
            // the remainder's phase-one fixpoint survives phase two
            assert forall|j: int| 0 <= j < finals.len() implies first_action_filter(
                mfs,
                #[trigger] finals[j],
            ) is None by {
                assert(mid.contains(finals[j]));
                let w = choose|w: int| 0 <= w < mid.len() && mid[w] == finals[j];
                assert(first_action_filter(mfs, mid[w]) is None);
            }
            lemma_filtered_from_trans(fetched, mid, finals);
        }
        failures.append(&mut state_failures);
        match self.client.logout() {
            Ok(()) => {},
            Err(e) => {
                return Err(e);
            },
        }
        let rep = RunReport { content, state, failures, untouched: messages };
        proof {
            assert(crate::thread::thread_map_complete(tm, fetched));
            assert(report_sound(
                rep,
                self.message_filters.deep_view(),
                self.state_filters.deep_view(),
            ));
        }
        Ok(rep)
    }

    /// Validates every configured content filter's glob patterns, then
    /// runs [`IMAPFilter::execute`]: a filter with an unusable pattern ends
    /// the run before any mutation, carrying that filter's name.
    pub fn execute_checked<K: Clock>(&mut self, clock: &K) -> (r: Result<RunReport, RunError>)
        ensures
            r matches Err(RunError::BadFilterPattern(_)) <==> !all_filters_wf(
                old(self).message_filters.deep_view(),
            ),
            r matches Ok(rep) ==> report_sound(
                rep,
                final(self).message_filters.deep_view(),
                final(self).state_filters.deep_view(),
            ),
    {
        let n = self.message_filters.len();
        let mut i: usize = 0;
        while i < n
            invariant
                n == self.message_filters@.len(),
                self == old(self),
                i <= n,
                forall|t: int|
                    0 <= t < i ==> message_filter_wf(
                        #[trigger] self.message_filters.deep_view()[t],
                    ),
            decreases n - i,
        {
            if !self.message_filters[i].patterns_valid() {
                proof {
                    assert(!message_filter_wf(self.message_filters.deep_view()[i as int]));
                }
                let name = self.message_filters[i].name.clone();
                return Err(RunError::BadFilterPattern(name));
            }
            i += 1;
        }
        match self.execute(clock) {
            Ok(rep) => Ok(rep),
            Err(e) => Err(RunError::Client(e)),
        }
    }
}

/// Keep protection: a message whose first applicable state filter is
/// `Keep` is acted upon by no phase-two expiry, provided every fetched
/// message whose conversation touches its uid is itself first matched by a
/// `Keep` filter or by none.
pub proof fn lemma_keep_protection(
    log: Seq<StateDecisionV>,
    sfs: Seq<StateFilterV>,
    tm: crate::thread::ThreadMapV,
    msgs: Seq<MessageV>,
    m: MessageV,
    d: int,
)
    requires
        forall|t: int| 0 <= t < log.len() ==> state_decision_sound(#[trigger] log[t], sfs, tm, msgs),
        msgs.contains(m),
        forall|x: MessageV|
            #[trigger] msgs.contains(x) && uid_in(thread_members_of(tm, x), m.uid) ==> match first_state_filter(
                sfs,
                x,
            ) {
                Some(fj) => sfs[fj].ttl is Keep,
                None => true,
            },
        0 <= d < log.len(),
        !log[d].outcome_protected,
    ensures
        !log[d].uids.contains(m.uid),
{
    assert(state_decision_sound(log[d], sfs, tm, msgs));
    let (m2, fi) = choose|m2: MessageV, fi: int|
        #![trigger sfs[fi], first_state_filter(sfs, m2)]
        msgs.contains(m2) && first_state_filter(sfs, m2) == Some(fi) && 0 <= fi < sfs.len()
            && log[d].filter_name == sfs[fi].name && !(sfs[fi].ttl is Keep)
            && log[d].outcome_action == Some(sfs[fi].action) && log[d].outcome_nerfed == sfs[fi].nerf
            && log[d].uids == uids_of(thread_members_of(tm, m2)) && (exists|now: int|
            thread_expired_at(tm, sfs[fi], m2, now));
    if log[d].uids.contains(m.uid) {
        let w = choose|w: int| 0 <= w < log[d].uids.len() && log[d].uids[w] == m.uid;
        assert(thread_members_of(tm, m2)[w].uid == m.uid);
        assert(uid_in(thread_members_of(tm, m2), m.uid));
        assert(msgs.contains(m2));
        assert(sfs[fi].ttl is Keep);
    }
}

} // verus!
