//! Conversation threads: messages are grouped by the provider's native
//! thread id when one is present, otherwise by the connectivity of their
//! Message-ID, In-Reply-To and References headers; messages without any
//! usable id each form a thread of their own. The grouping is rebuilt fresh
//! every run and is deterministic in the input order.

use vstd::prelude::*;
use vstd::multiset::Multiset;
use vstd::string::*;

use crate::client_ops::{Clock, ClientError, IMAPClientOps, RealClock};
use crate::message::{clone_message_vec, clone_string_vec, Message, MessageV};
use crate::state_filter::{rfc3339_epoch_of, ttl_expired, StateAction, StateFilter};
use crate::text::{dec_of, push_dec, str_eq};

verus! {

/// The mathematical value of a thread map: keys with the messages under
/// them, in a fixed order.
pub type ThreadMapV = Seq<(Seq<char>, Seq<MessageV>)>;

/// A message that carries a provider-native thread id.
pub open spec fn is_provider(m: MessageV) -> bool {
    m.thread_id is Some
}

/// A message grouped through the header graph: no provider id, but a
/// non-empty Message-ID.
pub open spec fn is_graph(m: MessageV) -> bool {
    !is_provider(m) && match m.message_id {
        Some(id) => id.len() > 0,
        None => false,
    }
}

/// A message with neither a provider id nor a usable Message-ID; it forms a
/// thread of its own.
pub open spec fn is_solo(m: MessageV) -> bool {
    !is_provider(m) && !match m.message_id {
        Some(id) => id.len() > 0,
        None => false,
    }
}

/// The header-graph node ids that a message touches: its own Message-ID,
/// the id it replies to, and everything it references.
pub open spec fn msg_ids(m: MessageV) -> Seq<Seq<char>> {
    (match m.message_id {
        Some(id) => seq![id],
        None => Seq::empty(),
    }) + (match m.in_reply_to {
        Some(p) => seq![p],
        None => Seq::empty(),
    }) + m.references
}

/// Two messages touch a common header-graph node.
pub open spec fn ids_overlap(m1: MessageV, m2: MessageV) -> bool {
    exists|a: int, b: int|
        0 <= a < msg_ids(m1).len() && 0 <= b < msg_ids(m2).len() && msg_ids(m1)[a] == msg_ids(
            m2,
        )[b]
}

/// Every element of `a` occurs in `b`.
pub open spec fn sub_ids(a: Seq<Seq<char>>, b: Seq<Seq<char>>) -> bool {
    forall|t: int| 0 <= t < a.len() ==> b.contains(#[trigger] a[t])
}

/// Some element of `a` occurs in `b`.
pub open spec fn ids_meet(a: Seq<Seq<char>>, b: Seq<Seq<char>>) -> bool {
    exists|t: int| 0 <= t < a.len() && b.contains(#[trigger] a[t])
}

/// The two messages stand in one group of the map.
pub open spec fn same_group(tm: ThreadMapV, m1: MessageV, m2: MessageV) -> bool {
    exists|g: int| 0 <= g < tm.len() && (#[trigger] tm[g].1).contains(m1) && tm[g].1.contains(m2)
}

/// Some group of the map contains the message.
pub open spec fn in_map(tm: ThreadMapV, m: MessageV) -> bool {
    exists|g: int| 0 <= g < tm.len() && (#[trigger] tm[g].1).contains(m)
}

/// Some group of the map carries the key.
pub open spec fn map_has_key(tm: ThreadMapV, key: Seq<char>) -> bool {
    exists|g: int| 0 <= g < tm.len() && (#[trigger] tm[g].0) == key
}

/// Whether `v` holds the string `s`.
fn vec_contains_str(v: &Vec<String>, s: &str) -> (r: bool)
    ensures
        r == v.deep_view().contains(s@),
{
    let n = v.len();
    let mut i: usize = 0;
    while i < n
        invariant
            n == v.len(),
            i <= n,
            forall|j: int| 0 <= j < i ==> v.deep_view()[j] != s@,
        decreases n - i,
    {
        if str_eq(v[i].as_str(), s) {
            assert(v.deep_view()[i as int] == s@);
            return true;
        }
        i += 1;
    }
    assert(forall|j: int| 0 <= j < v.deep_view().len() ==> v.deep_view()[j] != s@);
    false
}

/// Whether the two id lists share an element.
fn ids_meet_x(a: &Vec<String>, b: &Vec<String>) -> (r: bool)
    ensures
        r == ids_meet(a.deep_view(), b.deep_view()),
{
    let n = a.len();
    let mut i: usize = 0;
    while i < n
        invariant
            n == a.len(),
            i <= n,
            forall|t: int| 0 <= t < i ==> !b.deep_view().contains(#[trigger] a.deep_view()[t]),
        decreases n - i,
    {
        if vec_contains_str(b, a[i].as_str()) {
            assert(b.deep_view().contains(a.deep_view()[i as int]));
            return true;
        }
        i += 1;
    }
    false
}

/// Appends clones of the elements of `src` to `dst`.
fn extend_strings(dst: &mut Vec<String>, src: &Vec<String>)
    ensures
        final(dst).deep_view() == old(dst).deep_view() + src.deep_view(),
{
    let mut i: usize = 0;
    while i < src.len()
        invariant
            i <= src.len(),
            dst.deep_view() =~= old(dst).deep_view() + src.deep_view().subrange(0, i as int),
        decreases src.len() - i,
    {
        let ghost prev = dst.deep_view();
        dst.push(src[i].clone());
        proof {
            assert(dst.deep_view() =~= prev.push(src.deep_view()[i as int]));
        }
        i += 1;
    }
    proof {
        assert(src.deep_view().subrange(0, src.len() as int) =~= src.deep_view());
    }
}

/// Appends clones of the elements of `src` to `dst`.
fn extend_messages(dst: &mut Vec<Message>, src: &Vec<Message>)
    ensures
        final(dst).deep_view() == old(dst).deep_view() + src.deep_view(),
{
    let mut i: usize = 0;
    while i < src.len()
        invariant
            i <= src.len(),
            dst.deep_view() =~= old(dst).deep_view() + src.deep_view().subrange(0, i as int),
        decreases src.len() - i,
    {
        let ghost prev = dst.deep_view();
        dst.push(src[i].clone());
        proof {
            assert(dst.deep_view() =~= prev.push(src.deep_view()[i as int]));
        }
        i += 1;
    }
    proof {
        assert(src.deep_view().subrange(0, src.len() as int) =~= src.deep_view());
    }
}

/// The node ids that a message touches, as strings.
fn collect_ids(m: &Message) -> (r: Vec<String>)
    ensures
        r.deep_view() == msg_ids(m@),
{
    let mut out: Vec<String> = Vec::new();
    proof {
        assert(out.deep_view() =~= Seq::<Seq<char>>::empty());
    }
    match &m.message_id {
        Some(id) => {
            let ghost prev = out.deep_view();
            out.push(id.clone());
            proof {
                assert(out.deep_view() =~= prev.push(id@));
            }
        },
        None => {},
    }
    match &m.in_reply_to {
        Some(p) => {
            let ghost prev = out.deep_view();
            out.push(p.clone());
            proof {
                assert(out.deep_view() =~= prev.push(p@));
            }
        },
        None => {},
    }
    extend_strings(&mut out, &m.references);
    proof {
        assert(out.deep_view() =~= msg_ids(m@));
    }
    out
}

/// One header-graph component under construction: the node ids it spans and
/// the messages assigned to it.
struct Comp {
    ids: Vec<String>,
    msgs: Vec<Message>,
}

impl Comp {
    spec fn idsv(&self) -> Seq<Seq<char>> {
        self.ids.deep_view()
    }

    spec fn msgsv(&self) -> Seq<MessageV> {
        self.msgs.deep_view()
    }
}

fn clone_comp(c: &Comp) -> (r: Comp)
    ensures
        r.idsv() == c.idsv(),
        r.msgsv() == c.msgsv(),
{
    Comp { ids: clone_string_vec(&c.ids), msgs: clone_message_vec(&c.msgs) }
}

/// All invariants of a finished component family over its source list:
/// members come from the source, a member's ids lie inside its component's
/// ids, and distinct components span disjoint ids.
spec fn comps_wf(comps: Seq<(Seq<Seq<char>>, Seq<MessageV>)>, rest: Seq<MessageV>) -> bool {
    &&& forall|c: int, j: int|
        0 <= c < comps.len() && 0 <= j < comps[c].1.len() ==> rest.contains(
            #[trigger] comps[c].1[j],
        )
    &&& forall|c: int, j: int|
        0 <= c < comps.len() && 0 <= j < comps[c].1.len() ==> sub_ids(
            msg_ids(#[trigger] comps[c].1[j]),
            comps[c].0,
        )
    &&& forall|c1: int, c2: int, t: int|
        0 <= c1 < comps.len() && 0 <= c2 < comps.len() && c1 != c2 && 0 <= t < comps[c1].0.len()
            ==> !(#[trigger] comps[c2].0).contains(#[trigger] comps[c1].0[t])
}

spec fn comps_view(comps: Seq<Comp>) -> Seq<(Seq<Seq<char>>, Seq<MessageV>)> {
    comps.map_values(|c: Comp| (c.idsv(), c.msgsv()))
}

/// Every component's members, concatenated in order.
spec fn comp_flat(comps: Seq<Comp>) -> Seq<MessageV>
    decreases comps.len(),
{
    if comps.len() == 0 {
        Seq::empty()
    } else {
        comp_flat(comps.drop_last()) + comps.last().msgsv()
    }
}

/// The first `k` messages of `rest` each lie in some component.
spec fn covers_prefix(comps: Seq<Comp>, rest: Seq<MessageV>, k: int) -> bool {
    forall|i: int|
        0 <= i < k ==> exists|c: int|
            0 <= c < comps.len() && (#[trigger] comps[c].msgsv()).contains(#[trigger] rest[i])
}

/// Groups the messages of `rest` into the connected components of the
/// header graph, merging components whenever a message touches both.
#[verifier::rlimit(60)]
fn graph_components(rest: &Vec<Message>) -> (comps: Vec<Comp>)
    ensures
        comps_wf(comps_view(comps@), rest.deep_view()),
        covers_prefix(comps@, rest.deep_view(), rest.deep_view().len() as int),
        forall|c: int| 0 <= c < comps@.len() ==> (#[trigger] comps@[c].msgsv()).len() > 0,
        comp_flat(comps@).to_multiset() =~= rest.deep_view().to_multiset(),
{
    let mut comps: Vec<Comp> = Vec::new();
    let mut k: usize = 0;
    proof {
        broadcast use vstd::multiset::group_multiset_axioms;

        assert(comp_flat(comps@) =~= Seq::<MessageV>::empty());
        assert(rest.deep_view().subrange(0, 0) =~= Seq::<MessageV>::empty());
    }
    while k < rest.len()
        invariant
            k <= rest.len(),
            comps_wf(comps_view(comps@), rest.deep_view().subrange(0, k as int)),
            covers_prefix(comps@, rest.deep_view(), k as int),
            forall|c: int| 0 <= c < comps@.len() ==> (#[trigger] comps@[c].msgsv()).len() > 0,
            comp_flat(comps@).to_multiset() =~= rest.deep_view().subrange(
                0,
                k as int,
            ).to_multiset(),
        decreases rest.len() - k,
    {
        let ghost pre = rest.deep_view().subrange(0, k as int);
        let m = &rest[k];
        let mids = collect_ids(m);
        let mut merged = Comp { ids: mids, msgs: Vec::new() };
        merged.msgs.push(m.clone());
        let ghost mv = m@;
        proof {
            assert(merged.msgsv() =~= seq![mv]);
            assert(merged.msgsv()[0] == mv);
            assert(merged.msgsv().contains(mv));
            assert forall|t: int| 0 <= t < msg_ids(mv).len() implies merged.idsv().contains(
                #[trigger] msg_ids(mv)[t],
            ) by {
                assert(merged.idsv()[t] == msg_ids(mv)[t]);
            }
        }
        let mut kept: Vec<Comp> = Vec::new();
        let ghost mut kidx: Seq<int> = Seq::empty();
        let mut c: usize = 0;
        proof {
            broadcast use vstd::multiset::group_multiset_axioms;

            assert(comp_flat(kept@) =~= Seq::<MessageV>::empty());
            assert(comp_flat(comps@.subrange(0, 0)) =~= Seq::<MessageV>::empty());
            lemma_empty_to_multiset();
        }
        while c < comps.len()
            invariant
                c <= comps.len(),
                comps_wf(comps_view(comps@), pre),
                comp_flat(kept@).to_multiset().add(merged.msgsv().to_multiset())
                    =~= comp_flat(comps@.subrange(0, c as int)).to_multiset().add(
                    seq![mv].to_multiset(),
                ),
                kidx.len() == kept@.len(),
                forall|a: int| 0 <= a < kidx.len() ==> 0 <= #[trigger] kidx[a] < c,
                forall|a: int, b: int| 0 <= a < b < kidx.len() ==> kidx[a] < kidx[b],
                forall|a: int|
                    0 <= a < kept@.len() ==> (#[trigger] kept@[a].idsv()) == comps@[kidx[a]].idsv()
                        && kept@[a].msgsv() == comps@[kidx[a]].msgsv(),
                // the seed ids stay in the merged component
                sub_ids(msg_ids(mv), merged.idsv()),
                merged.msgsv().contains(mv),
                // kept components never meet the merged one
                forall|a: int, t: int|
                    0 <= a < kept@.len() && 0 <= t < kept@[a].idsv().len() ==> !merged.idsv()
                        .contains(#[trigger] kept@[a].idsv()[t]),
                // members of merged: the new message or one already seen
                forall|j: int|
                    0 <= j < merged.msgsv().len() ==> (#[trigger] merged.msgsv()[j] == mv
                        || pre.contains(merged.msgsv()[j])),
                forall|j: int|
                    0 <= j < merged.msgsv().len() ==> sub_ids(
                        msg_ids(#[trigger] merged.msgsv()[j]),
                        merged.idsv(),
                    ),
                // every component before c went whole into kept or merged
                forall|j: int|
                    #![trigger comps@[j].msgsv()]
                    0 <= j < c ==> (exists|a: int| 0 <= a < kidx.len() && #[trigger] kidx[a] == j)
                        || (forall|t: int|
                        0 <= t < comps@[j as int].msgsv().len() ==> merged.msgsv().contains(
                            #[trigger] comps@[j as int].msgsv()[t],
                        )),
            decreases comps.len() - c,
        {
            let overlap = ids_meet_x(&comps[c].ids, &merged.ids);
            if overlap {
                let ghost prev_ids = merged.idsv();
                let ghost prev_msgs = merged.msgsv();
                let comp_ids = clone_string_vec(&comps[c].ids);
                let comp_msgs = clone_message_vec(&comps[c].msgs);
                extend_strings(&mut merged.ids, &comp_ids);
                extend_messages(&mut merged.msgs, &comp_msgs);
                proof {
                    broadcast use vstd::multiset::group_multiset_axioms;

                    let ci = c as int;
                    assert(merged.idsv() =~= prev_ids + comps@[ci].idsv());
                    assert(merged.msgsv() =~= prev_msgs + comps@[ci].msgsv());
                    vstd::seq_lib::lemma_multiset_commutative(prev_msgs, comps@[ci].msgsv());
                    assert(merged.msgsv().to_multiset() =~= prev_msgs.to_multiset().add(
                        comps@[ci].msgsv().to_multiset(),
                    ));
                    assert(comps@.subrange(0, ci + 1).drop_last() =~= comps@.subrange(0, ci));
                    assert(comps@.subrange(0, ci + 1).last() == comps@[ci]);
                    assert(comp_flat(comps@.subrange(0, ci + 1)) =~= comp_flat(
                        comps@.subrange(0, ci),
                    ) + comps@[ci].msgsv());
                    vstd::seq_lib::lemma_multiset_commutative(
                        comp_flat(comps@.subrange(0, ci)),
                        comps@[ci].msgsv(),
                    );
                    assert(comp_flat(comps@.subrange(0, ci + 1)).to_multiset() =~= comp_flat(
                        comps@.subrange(0, ci),
                    ).to_multiset().add(comps@[ci].msgsv().to_multiset()));
                    assert(comp_flat(kept@).to_multiset().add(merged.msgsv().to_multiset())
                        =~= comp_flat(comps@.subrange(0, ci + 1)).to_multiset().add(
                        seq![mv].to_multiset(),
                    )) by {
                        broadcast use vstd::multiset::group_multiset_axioms;

                        assert forall|x: MessageV|
                            comp_flat(kept@).to_multiset().add(
                                merged.msgsv().to_multiset(),
                            ).count(x) == comp_flat(comps@.subrange(0, ci + 1)).to_multiset().add(
                                seq![mv].to_multiset(),
                            ).count(x) by {
                            assert(comp_flat(kept@).to_multiset().add(
                                prev_msgs.to_multiset(),
                            ).count(x) == comp_flat(comps@.subrange(0, ci)).to_multiset().add(
                                seq![mv].to_multiset(),
                            ).count(x));
                            assert(merged.msgsv().to_multiset().count(x)
                                == prev_msgs.to_multiset().count(x) + comps@[
                                ci].msgsv().to_multiset().count(x));
                            assert(comp_flat(comps@.subrange(0, ci + 1)).to_multiset().count(x)
                                == comp_flat(comps@.subrange(0, ci)).to_multiset().count(x)
                                + comps@[ci].msgsv().to_multiset().count(x));
                        }
                    }
                    // containment in the previous state lifts to the grown state
                    assert forall|x: Seq<char>| prev_ids.contains(x) implies merged.idsv()
                        .contains(x) by {
                        let w = choose|w: int| 0 <= w < prev_ids.len() && prev_ids[w] == x;
                        assert(merged.idsv()[w] == x);
                    }
                    assert forall|x: Seq<char>| comps@[ci].idsv().contains(x) implies merged.idsv()
                        .contains(x) by {
                        let w = choose|w: int|
                            0 <= w < comps@[ci].idsv().len() && comps@[ci].idsv()[w] == x;
                        assert(merged.idsv()[prev_ids.len() + w] == x);
                    }
                    assert forall|x: MessageV| prev_msgs.contains(x) implies merged.msgsv()
                        .contains(x) by {
                        let w = choose|w: int| 0 <= w < prev_msgs.len() && prev_msgs[w] == x;
                        assert(merged.msgsv()[w] == x);
                    }
                    assert forall|x: MessageV| comps@[ci].msgsv().contains(x) implies merged
                        .msgsv().contains(x) by {
                        let w = choose|w: int|
                            0 <= w < comps@[ci].msgsv().len() && comps@[ci].msgsv()[w] == x;
                        assert(merged.msgsv()[prev_msgs.len() + w] == x);
                    }
                    // kept components stay clear of the grown id set: they are
                    // other source components, disjoint from this one
                    assert forall|a: int, t: int|
                        0 <= a < kept@.len() && 0 <= t < kept@[a].idsv().len() implies !merged
                        .idsv().contains(#[trigger] kept@[a].idsv()[t]) by {
                        let x = kept@[a].idsv()[t];
                        assert(kept@[a].idsv() == comps@[kidx[a]].idsv());
                        assert(comps_view(comps@)[kidx[a]].0 == comps@[kidx[a]].idsv());
                        assert(kidx[a] != ci);
                        if merged.idsv().contains(x) {
                            let w = choose|w: int|
                                0 <= w < merged.idsv().len() && merged.idsv()[w] == x;
                            if w < prev_ids.len() {
                                assert(prev_ids.contains(x)) by {
                                    assert(prev_ids[w] == x);
                                }
                            } else {
                                assert(comps@[ci].idsv()[w - prev_ids.len()] == x);
                                assert(comps_view(comps@)[ci].0.contains(x)) by {
                                    assert(comps_view(comps@)[ci].0[w - prev_ids.len()] == x);
                                }
                                assert(comps_view(comps@)[kidx[a]].0[t] == x);
                                assert(false);
                            }
                        }
                    }
                    // members of the folded component were already seen
                    assert forall|j: int|
                        0 <= j < merged.msgsv().len() implies (#[trigger] merged.msgsv()[j] == mv
                            || pre.contains(merged.msgsv()[j])) by {
                        if j >= prev_msgs.len() {
                            assert(merged.msgsv()[j] == comps@[ci].msgsv()[j - prev_msgs.len()]);
                            assert(comps_view(comps@)[ci].1[j - prev_msgs.len()]
                                == merged.msgsv()[j]);
                        }
                    }
                    assert forall|j: int| 0 <= j < merged.msgsv().len() implies sub_ids(
                        msg_ids(#[trigger] merged.msgsv()[j]),
                        merged.idsv(),
                    ) by {
                        if j < prev_msgs.len() {
                            assert(prev_msgs[j] == merged.msgsv()[j]);
                            assert(sub_ids(msg_ids(prev_msgs[j]), prev_ids));
                        } else {
                            let x = merged.msgsv()[j];
                            assert(comps_view(comps@)[ci].1[j - prev_msgs.len()] == x);
                            assert(sub_ids(msg_ids(x), comps_view(comps@)[ci].0));
                        }
                    }
                    // the folded component's members now all sit in merged
                    assert forall|t: int| 0 <= t < comps@[ci].msgsv().len() implies merged.msgsv()
                        .contains(#[trigger] comps@[ci].msgsv()[t]) by {
                        assert(merged.msgsv()[prev_msgs.len() + t] == comps@[ci].msgsv()[t]);
                    }

                    assert(forall|a: int|
                        0 <= a < kept@.len() ==> (#[trigger] kept@[a].idsv())
                            == comps@[kidx[a]].idsv() && kept@[a].msgsv()
                            == comps@[kidx[a]].msgsv());
                    // components folded in earlier stay inside merged
                    assert forall|j: int|
                        #![trigger comps@[j].msgsv()]
                        0 <= j < ci + 1 implies (exists|a: int|
                        0 <= a < kidx.len() && #[trigger] kidx[a] == j) || (forall|t: int|
                        0 <= t < comps@[j].msgsv().len() ==> merged.msgsv().contains(
                            #[trigger] comps@[j].msgsv()[t],
                        )) by {
                        if j < ci {
                            if !(exists|a: int| 0 <= a < kidx.len() && #[trigger] kidx[a] == j) {
                                assert forall|t: int|
                                    0 <= t < comps@[j].msgsv().len() implies merged.msgsv()
                                    .contains(#[trigger] comps@[j].msgsv()[t]) by {
                                    assert(prev_msgs.contains(comps@[j].msgsv()[t]));
                                }
                            }
                        }
                    }
                    // the kept/source correspondence is untouched here
                    assert forall|a: int| 0 <= a < kept@.len() implies (#[trigger] kept@[a]
                        .idsv()) == comps@[kidx[a]].idsv() && kept@[a].msgsv()
                        == comps@[kidx[a]].msgsv() by {
                        assert(kept@[a].idsv() == comps@[kidx[a]].idsv());
                    }
                }
            } else {
                let ghost prev_kept = kept@;
                let ghost kidx0 = kidx;
                kept.push(clone_comp(&comps[c]));
                proof {
                    broadcast use vstd::multiset::group_multiset_axioms;

                    kidx = kidx.push(c as int);
                    assert(kept@.drop_last() =~= prev_kept);
                    assert(kept@.last().msgsv() == comps@[c as int].msgsv());
                    assert(comp_flat(kept@) =~= comp_flat(prev_kept) + comps@[c as int].msgsv());
                    vstd::seq_lib::lemma_multiset_commutative(
                        comp_flat(prev_kept),
                        comps@[c as int].msgsv(),
                    );
                    assert(comp_flat(kept@).to_multiset() =~= comp_flat(prev_kept).to_multiset()
                        .add(comps@[c as int].msgsv().to_multiset()));
                    assert(comps@.subrange(0, c as int + 1).drop_last() =~= comps@.subrange(
                        0,
                        c as int,
                    ));
                    assert(comps@.subrange(0, c as int + 1).last() == comps@[c as int]);
                    assert(comp_flat(comps@.subrange(0, c as int + 1)) =~= comp_flat(
                        comps@.subrange(0, c as int),
                    ) + comps@[c as int].msgsv());
                    vstd::seq_lib::lemma_multiset_commutative(
                        comp_flat(comps@.subrange(0, c as int)),
                        comps@[c as int].msgsv(),
                    );
                    assert(comp_flat(comps@.subrange(0, c as int + 1)).to_multiset()
                        =~= comp_flat(comps@.subrange(0, c as int)).to_multiset().add(
                        comps@[c as int].msgsv().to_multiset(),
                    ));
                    assert(comp_flat(kept@).to_multiset().add(merged.msgsv().to_multiset())
                        =~= comp_flat(comps@.subrange(0, c as int + 1)).to_multiset().add(
                        seq![mv].to_multiset(),
                    )) by {
                        broadcast use vstd::multiset::group_multiset_axioms;

                        assert forall|x: MessageV|
                            comp_flat(kept@).to_multiset().add(
                                merged.msgsv().to_multiset(),
                            ).count(x) == comp_flat(
                                comps@.subrange(0, c as int + 1),
                            ).to_multiset().add(seq![mv].to_multiset()).count(x) by {
                            assert(comp_flat(prev_kept).to_multiset().add(
                                merged.msgsv().to_multiset(),
                            ).count(x) == comp_flat(
                                comps@.subrange(0, c as int),
                            ).to_multiset().add(seq![mv].to_multiset()).count(x));
                            assert(comp_flat(kept@).to_multiset().count(x) == comp_flat(
                                prev_kept,
                            ).to_multiset().count(x) + comps@[
                                c as int].msgsv().to_multiset().count(x));
                            assert(comp_flat(comps@.subrange(0, c as int + 1)).to_multiset()
                                .count(x) == comp_flat(comps@.subrange(0, c as int)).to_multiset()
                                .count(x) + comps@[c as int].msgsv().to_multiset().count(x));
                        }
                    }
                    assert(forall|a: int| 0 <= a < kidx0.len() ==> #[trigger] kidx[a] == kidx0[a]);
                    assert(kept@.len() == prev_kept.len() + 1);
                    assert(kept@[prev_kept.len() as int].idsv() == comps@[c as int].idsv());
                    assert(kept@[prev_kept.len() as int].msgsv() == comps@[c as int].msgsv());
                    assert(forall|a: int|
                        0 <= a < prev_kept.len() ==> kept@[a] == prev_kept[a]);
                    assert(kidx[kidx.len() - 1] == c as int);
                    assert forall|a: int| 0 <= a < kept@.len() implies (#[trigger] kept@[a].idsv())
                        == comps@[kidx[a]].idsv() && kept@[a].msgsv()
                        == comps@[kidx[a]].msgsv() by {
                        if a < prev_kept.len() {
                            assert(kept@[a] == prev_kept[a]);
                            assert(kidx[a] == kidx0[a]);
                            assert(prev_kept[a].idsv() == comps@[kidx0[a]].idsv());
                        } else {
                            assert(kidx[a] == c as int);
                        }
                    }
                    // the kept component misses every merged id, since the
                    // overlap test came back false
                    assert forall|a: int, t: int|
                        0 <= a < kept@.len() && 0 <= t < kept@[a].idsv().len() implies !merged
                        .idsv().contains(#[trigger] kept@[a].idsv()[t]) by {
                        if a == prev_kept.len() {
                            assert(!ids_meet(comps@[c as int].idsv(), merged.idsv()));
                            assert(!merged.idsv().contains(comps@[c as int].idsv()[t]));
                        }
                    }
                    // earlier components keep their disposition
                    assert forall|j: int|
                        #![trigger comps@[j].msgsv()]
                        0 <= j < c + 1 implies (exists|a: int|
                        0 <= a < kidx.len() && #[trigger] kidx[a] == j) || (forall|t: int|
                        0 <= t < comps@[j].msgsv().len() ==> merged.msgsv().contains(
                            #[trigger] comps@[j].msgsv()[t],
                        )) by {
                        if j == c {
                            assert(kidx[kidx.len() - 1] == j);
                        } else {
                            if exists|a: int| 0 <= a < kidx0.len() && #[trigger] kidx0[a] == j {
                                let a = choose|a: int|
                                    0 <= a < kidx0.len() && #[trigger] kidx0[a] == j;
                                assert(kidx[a] == j);
                            }
                        }
                    }
                }
            }
            proof {
                // restate the kept/source correspondence for the invariant
                assert(forall|a: int|
                    0 <= a < kept@.len() ==> (#[trigger] kept@[a].idsv())
                        == comps@[kidx[a]].idsv() && kept@[a].msgsv()
                        == comps@[kidx[a]].msgsv());
            }
            c += 1;
        }
        let ghost prev_comps = comps@;
        let ghost prev_comps_whole = comps@;
        let ghost prev_kept = kept@;
        let ghost final_merged_ids = merged.idsv();
        let ghost final_merged_msgs = merged.msgsv();
        proof {
            // restate the loop invariants over the captured values
            assert(c == comps.len());
            assert(kidx.len() == prev_kept.len());
            assert(forall|a: int| 0 <= a < kidx.len() ==> 0 <= #[trigger] kidx[a] < prev_comps.len());
            assert(forall|a: int, b: int| 0 <= a < b < kidx.len() ==> kidx[a] < kidx[b]);
            assert(forall|a: int|
                0 <= a < prev_kept.len() ==> (#[trigger] prev_kept[a].idsv())
                    == prev_comps[kidx[a]].idsv() && prev_kept[a].msgsv()
                    == prev_comps[kidx[a]].msgsv());
            assert forall|a: int| 0 <= a < prev_kept.len() implies (#[trigger] prev_kept[a]
                .msgsv()) == prev_comps[kidx[a]].msgsv() by {
                assert(prev_kept[a].idsv() == prev_comps[kidx[a]].idsv());
            }
            assert(sub_ids(msg_ids(mv), final_merged_ids));
            assert(final_merged_msgs.contains(mv));
            assert(forall|a: int, t: int|
                0 <= a < prev_kept.len() && 0 <= t < prev_kept[a].idsv().len()
                    ==> !final_merged_ids.contains(#[trigger] prev_kept[a].idsv()[t]));
            assert(forall|j: int|
                0 <= j < final_merged_msgs.len() ==> (#[trigger] final_merged_msgs[j] == mv
                    || pre.contains(final_merged_msgs[j])));
            assert(forall|j: int|
                0 <= j < final_merged_msgs.len() ==> sub_ids(
                    msg_ids(#[trigger] final_merged_msgs[j]),
                    final_merged_ids,
                ));
            assert(forall|j: int|
                #![trigger prev_comps[j].msgsv()]
                0 <= j < prev_comps.len() ==> (exists|a: int|
                    0 <= a < kidx.len() && #[trigger] kidx[a] == j) || (forall|t: int|
                    0 <= t < prev_comps[j].msgsv().len() ==> final_merged_msgs.contains(
                        #[trigger] prev_comps[j].msgsv()[t],
                    )));
        }
        kept.push(merged);
        comps = kept;
        k += 1;
        proof {
            broadcast use vstd::multiset::group_multiset_axioms;

            assert(comps@.drop_last() =~= prev_kept);
            assert(comps@.last().msgsv() == final_merged_msgs);
            assert(comp_flat(comps@) =~= comp_flat(prev_kept) + final_merged_msgs);
            vstd::seq_lib::lemma_multiset_commutative(comp_flat(prev_kept), final_merged_msgs);
            assert(prev_comps.subrange(0, prev_comps.len() as int) =~= prev_comps);
            vstd::seq_lib::to_multiset_build(
                rest.deep_view().subrange(0, k as int - 1),
                rest.deep_view()[k as int - 1],
            );
            assert(rest.deep_view().subrange(0, k as int) =~= rest.deep_view().subrange(
                0,
                k as int - 1,
            ).push(rest.deep_view()[k as int - 1]));
            vstd::seq_lib::to_multiset_build(Seq::<MessageV>::empty(), mv);
            assert(seq![mv] =~= Seq::<MessageV>::empty().push(mv));
            lemma_empty_to_multiset();
            assert(comp_flat(comps@).to_multiset() =~= rest.deep_view().subrange(
                0,
                k as int,
            ).to_multiset());
            let newpre = rest.deep_view().subrange(0, k as int);
            assert(pre =~= newpre.drop_last());
            assert(newpre[k - 1] == rest.deep_view()[k - 1]);
            assert(rest.deep_view()[k - 1] == mv);
            assert(forall|w: int| 0 <= w < pre.len() ==> pre[w] == newpre[w]);
            let cv = comps_view(comps@);
            let gi = cv.len() - 1;
            assert(comps@.len() == prev_kept.len() + 1);
            assert(forall|a: int| 0 <= a < prev_kept.len() ==> comps@[a] == prev_kept[a]);
            assert(cv[gi].0 == final_merged_ids);
            assert(cv[gi].1 == final_merged_msgs);
            // membership of everything in the prefix
            assert forall|i: int| 0 <= i < k implies exists|cc: int|
                0 <= cc < comps@.len() && (#[trigger] comps@[cc].msgsv()).contains(
                    #[trigger] rest.deep_view()[i],
                ) by {
                assert(covers_prefix(prev_comps_whole, rest.deep_view(), k - 1));
                assert(0 <= i < k);
                if i == k - 1 {
                    assert(comps@[gi].msgsv().contains(mv));
                } else {
                    let mi = rest.deep_view()[i];
                    let c0 = choose|c0: int|
                        0 <= c0 < prev_comps.len() && (#[trigger] prev_comps[c0].msgsv()).contains(
                            mi,
                        );
                    if exists|a: int| 0 <= a < kidx.len() && #[trigger] kidx[a] == c0 {
                        let a = choose|a: int| 0 <= a < kidx.len() && #[trigger] kidx[a] == c0;
                        assert(prev_kept[a].msgsv() == prev_comps[c0].msgsv());
                        assert(comps@[a].msgsv().contains(mi));
                    } else {
                        assert(forall|t: int|
                            0 <= t < prev_comps[c0].msgsv().len() ==> final_merged_msgs.contains(
                                #[trigger] prev_comps[c0].msgsv()[t],
                            ));
                        let w = choose|w: int|
                            0 <= w < prev_comps[c0].msgsv().len() && prev_comps[c0].msgsv()[w]
                                == mi;
                        assert(comps@[gi].msgsv().contains(mi));
                    }
                }
            }
            assert(covers_prefix(comps@, rest.deep_view(), k as int));
            // members come from the prefix
            assert forall|cc: int, j: int|
                0 <= cc < cv.len() && 0 <= j < cv[cc].1.len() implies newpre.contains(
                    #[trigger] cv[cc].1[j],
                ) by {
                let x = cv[cc].1[j];
                if cc < gi {
                    assert(cv[cc].1 == prev_comps[kidx[cc]].msgsv());
                    assert(comps_view(prev_comps)[kidx[cc]].1 == prev_comps[kidx[cc]].msgsv());
                    assert(pre.contains(x));
                    let w = choose|w: int| 0 <= w < pre.len() && pre[w] == x;
                    assert(newpre[w] == x);
                } else {
                    if x == mv {
                        assert(newpre[k - 1] == mv);
                    } else {
                        assert(pre.contains(x));
                        let w = choose|w: int| 0 <= w < pre.len() && pre[w] == x;
                        assert(newpre[w] == x);
                    }
                }
            }
            // a member's ids lie inside its component
            assert forall|cc: int, j: int|
                0 <= cc < cv.len() && 0 <= j < cv[cc].1.len() implies sub_ids(
                    msg_ids(#[trigger] cv[cc].1[j]),
                    cv[cc].0,
                ) by {
                if cc < gi {
                    assert(cv[cc].1 == prev_comps[kidx[cc]].msgsv());
                    assert(cv[cc].0 == prev_comps[kidx[cc]].idsv());
                    assert(comps_view(prev_comps)[kidx[cc]].1 == prev_comps[kidx[cc]].msgsv());
                    assert(comps_view(prev_comps)[kidx[cc]].0 == prev_comps[kidx[cc]].idsv());
                }
            }
            // distinct components span disjoint ids
            assert forall|c1: int, c2: int, t: int|
                0 <= c1 < cv.len() && 0 <= c2 < cv.len() && c1 != c2 && 0 <= t
                    < cv[c1].0.len() implies !(#[trigger] cv[c2].0).contains(
                #[trigger] cv[c1].0[t],
            ) by {
                if c1 < gi && c2 < gi {
                    assert(cv[c1].0 == prev_comps[kidx[c1]].idsv());
                    assert(cv[c2].0 == prev_comps[kidx[c2]].idsv());
                    assert(comps_view(prev_comps)[kidx[c1]].0 == prev_comps[kidx[c1]].idsv());
                    assert(comps_view(prev_comps)[kidx[c2]].0 == prev_comps[kidx[c2]].idsv());
                    assert(kidx[c1] != kidx[c2]);
                } else if c1 < gi && c2 == gi {
                    assert(cv[c1].0 == prev_kept[c1].idsv());
                    assert(!final_merged_ids.contains(prev_kept[c1].idsv()[t]));
                } else if c1 == gi && c2 < gi {
                    let x = cv[c1].0[t];
                    if cv[c2].0.contains(x) {
                        assert(cv[c2].0 == prev_kept[c2].idsv());
                        let u = choose|u: int| 0 <= u < cv[c2].0.len() && cv[c2].0[u] == x;
                        assert(!final_merged_ids.contains(prev_kept[c2].idsv()[u]));
                        assert(final_merged_ids.contains(x)) by {
                            assert(final_merged_ids[t] == x);
                        }
                        assert(false);
                    }
                }
            }
        }
    }
    proof {
        assert(rest.deep_view().len() == rest@.len());
        assert(rest.deep_view().subrange(0, rest.len() as int) =~= rest.deep_view());
        assert(k as int == rest.deep_view().len() as int);
    }
    comps
}

/// Appending one component appends its members.
proof fn lemma_comp_flat_push(s: Seq<Comp>, c: Comp)
    ensures
        comp_flat(s.push(c)) == comp_flat(s) + c.msgsv(),
{
    assert(s.push(c).drop_last() =~= s);
    assert(comp_flat(s.push(c)) =~= comp_flat(s) + c.msgsv());
}


/// The provider-id groups are sound: members come from the source, carry a
/// provider id, and that id is the group's key; keys are pairwise distinct.
pub open spec fn pg_wf(pg: ThreadMapV, msgs: Seq<MessageV>) -> bool {
    &&& forall|g: int, j: int|
        0 <= g < pg.len() && 0 <= j < pg[g].1.len() ==> msgs.contains(#[trigger] pg[g].1[j])
    &&& forall|g: int, j: int|
        0 <= g < pg.len() && 0 <= j < pg[g].1.len() ==> (#[trigger] pg[g].1[j]).thread_id
            == Some(pg[g].0)
    &&& forall|g1: int, g2: int|
        0 <= g1 < g2 < pg.len() ==> (#[trigger] pg[g1].0) != (#[trigger] pg[g2].0)
}

/// Every provider message of the first `k` source messages lies in a group.
pub open spec fn pg_covers(pg: ThreadMapV, msgs: Seq<MessageV>, k: int) -> bool {
    forall|i: int|
        0 <= i < k && is_provider(#[trigger] msgs[i]) ==> in_map(pg, msgs[i])
}

/// Whether some group of `pg` carries the key.
fn find_key(pg: &Vec<(String, Vec<Message>)>, key: &str) -> (r: bool)
    ensures
        r == map_has_key(pg.deep_view(), key@),
{
    let n = pg.len();
    let mut g: usize = 0;
    while g < n
        invariant
            n == pg.len(),
            g <= n,
            forall|t: int| 0 <= t < g ==> (#[trigger] pg.deep_view()[t].0) != key@,
        decreases n - g,
    {
        if str_eq(pg[g].0.as_str(), key) {
            assert(pg.deep_view()[g as int].0 == key@);
            return true;
        }
        g += 1;
    }
    false
}

/// The index of the first group carrying the key, if any.
fn find_key_index(pg: &Vec<(String, Vec<Message>)>, key: &str) -> (r: Option<usize>)
    ensures
        match r {
            Some(g) => (g as int) < pg.deep_view().len() && pg.deep_view()[g as int].0 == key@,
            None => !map_has_key(pg.deep_view(), key@),
        },
{
    let n = pg.len();
    let mut g: usize = 0;
    while g < n
        invariant
            n == pg.len(),
            g <= n,
            forall|t: int| 0 <= t < g ==> (#[trigger] pg.deep_view()[t].0) != key@,
        decreases n - g,
    {
        if str_eq(pg[g].0.as_str(), key) {
            assert(pg.deep_view()[g as int].0 == key@);
            return Some(g);
        }
        g += 1;
    }
    None
}

/// Splits the fetched messages into provider-keyed groups, the header-graph
/// messages, and the solo messages, in input order.
fn provider_partition(messages: &Vec<Message>) -> (r: (
    Vec<(String, Vec<Message>)>,
    Vec<Message>,
    Vec<Message>,
))
    ensures
        pg_wf(r.0.deep_view(), messages.deep_view()),
        pg_covers(r.0.deep_view(), messages.deep_view(), messages.deep_view().len() as int),
        forall|g: int| 0 <= g < r.0.deep_view().len() ==> (#[trigger] r.0.deep_view()[g].1).len()
            > 0,
        flat_members(r.0.deep_view()).to_multiset().add(r.1.deep_view().to_multiset()).add(
            r.2.deep_view().to_multiset(),
        ) =~= messages.deep_view().to_multiset(),
        forall|j: int|
            0 <= j < r.1.deep_view().len() ==> is_graph(#[trigger] r.1.deep_view()[j])
                && messages.deep_view().contains(r.1.deep_view()[j]),
        forall|i: int|
            0 <= i < messages.deep_view().len() && is_graph(#[trigger] messages.deep_view()[i])
                ==> r.1.deep_view().contains(messages.deep_view()[i]),
        forall|j: int|
            0 <= j < r.2.deep_view().len() ==> is_solo(#[trigger] r.2.deep_view()[j])
                && messages.deep_view().contains(r.2.deep_view()[j]),
        forall|i: int|
            0 <= i < messages.deep_view().len() && is_solo(#[trigger] messages.deep_view()[i])
                ==> r.2.deep_view().contains(messages.deep_view()[i]),
{
    let ghost msgs = messages.deep_view();
    let n = messages.len();
    proof {
        assert(msgs.len() == messages@.len());
    }
    // first pass: sort the messages into the three families
    let mut pvec: Vec<Message> = Vec::new();
    let mut rest: Vec<Message> = Vec::new();
    let mut solos: Vec<Message> = Vec::new();
    let mut i: usize = 0;
    proof {
        broadcast use vstd::multiset::group_multiset_axioms;

        assert(pvec.deep_view() =~= Seq::<MessageV>::empty());
        assert(rest.deep_view() =~= Seq::<MessageV>::empty());
        assert(solos.deep_view() =~= Seq::<MessageV>::empty());
        assert(msgs.subrange(0, 0) =~= Seq::<MessageV>::empty());
        lemma_empty_to_multiset();
        assert(pvec.deep_view().to_multiset().add(rest.deep_view().to_multiset()).add(
            solos.deep_view().to_multiset(),
        ) =~= msgs.subrange(0, 0).to_multiset());
    }
    while i < n
        invariant
            n == messages.len(),
            msgs == messages.deep_view(),
            msgs.len() == n,
            i <= n,
            pvec.deep_view().to_multiset().add(rest.deep_view().to_multiset()).add(
                solos.deep_view().to_multiset(),
            ) =~= msgs.subrange(0, i as int).to_multiset(),
            forall|j: int|
                0 <= j < pvec.deep_view().len() ==> is_provider(#[trigger] pvec.deep_view()[j])
                    && msgs.contains(pvec.deep_view()[j]),
            forall|t: int|
                0 <= t < i && is_provider(#[trigger] msgs[t]) ==> pvec.deep_view().contains(
                    msgs[t],
                ),
            forall|j: int|
                0 <= j < rest.deep_view().len() ==> is_graph(#[trigger] rest.deep_view()[j])
                    && msgs.contains(rest.deep_view()[j]),
            forall|t: int|
                0 <= t < i && is_graph(#[trigger] msgs[t]) ==> rest.deep_view().contains(msgs[t]),
            forall|j: int|
                0 <= j < solos.deep_view().len() ==> is_solo(#[trigger] solos.deep_view()[j])
                    && msgs.contains(solos.deep_view()[j]),
            forall|t: int|
                0 <= t < i && is_solo(#[trigger] msgs[t]) ==> solos.deep_view().contains(msgs[t]),
        decreases n - i,
    {
        let m = &messages[i];
        proof {
            assert(m@ == msgs[i as int]);
            assert(msgs.contains(msgs[i as int])) by {
                assert(msgs[i as int] == msgs[i as int]);
            }
        }
        let has_provider = m.thread_id.is_some();
        if has_provider {
            let ghost prev = pvec.deep_view();
            pvec.push(m.clone());
            proof {
                broadcast use vstd::multiset::group_multiset_axioms;

                assert(pvec.deep_view() =~= prev.push(msgs[i as int]));
                vstd::seq_lib::to_multiset_build(prev, msgs[i as int]);
                vstd::seq_lib::to_multiset_build(msgs.subrange(0, i as int), msgs[i as int]);
                assert(msgs.subrange(0, i as int + 1) =~= msgs.subrange(0, i as int).push(
                    msgs[i as int],
                ));
                assert forall|t: int|
                    0 <= t < i + 1 && is_provider(#[trigger] msgs[t]) implies pvec.deep_view()
                    .contains(msgs[t]) by {
                    if t < i {
                        let w = choose|w: int| 0 <= w < prev.len() && prev[w] == msgs[t];
                        assert(pvec.deep_view()[w] == msgs[t]);
                    } else {
                        assert(pvec.deep_view()[prev.len() as int] == msgs[t]);
                    }
                }
            }
        } else {
            let is_graph_msg = match &m.message_id {
                Some(id) => id.as_str().unicode_len() > 0,
                None => false,
            };
            if is_graph_msg {
                let ghost prev = rest.deep_view();
                rest.push(m.clone());
                proof {
                    broadcast use vstd::multiset::group_multiset_axioms;

                    assert(rest.deep_view() =~= prev.push(msgs[i as int]));
                    vstd::seq_lib::to_multiset_build(prev, msgs[i as int]);
                    vstd::seq_lib::to_multiset_build(msgs.subrange(0, i as int), msgs[i as int]);
                    assert(msgs.subrange(0, i as int + 1) =~= msgs.subrange(0, i as int).push(
                        msgs[i as int],
                    ));
                    assert(is_graph(msgs[i as int]));
                    assert forall|t: int|
                        0 <= t < i + 1 && is_graph(#[trigger] msgs[t]) implies rest.deep_view()
                        .contains(msgs[t]) by {
                        if t < i {
                            let w = choose|w: int| 0 <= w < prev.len() && prev[w] == msgs[t];
                            assert(rest.deep_view()[w] == msgs[t]);
                        } else {
                            assert(rest.deep_view()[prev.len() as int] == msgs[t]);
                        }
                    }
                }
            } else {
                let ghost prev = solos.deep_view();
                solos.push(m.clone());
                proof {
                    broadcast use vstd::multiset::group_multiset_axioms;

                    assert(solos.deep_view() =~= prev.push(msgs[i as int]));
                    vstd::seq_lib::to_multiset_build(prev, msgs[i as int]);
                    vstd::seq_lib::to_multiset_build(msgs.subrange(0, i as int), msgs[i as int]);
                    assert(msgs.subrange(0, i as int + 1) =~= msgs.subrange(0, i as int).push(
                        msgs[i as int],
                    ));
                    assert(is_solo(msgs[i as int]));
                    assert forall|t: int|
                        0 <= t < i + 1 && is_solo(#[trigger] msgs[t]) implies solos.deep_view()
                        .contains(msgs[t]) by {
                        if t < i {
                            let w = choose|w: int| 0 <= w < prev.len() && prev[w] == msgs[t];
                            assert(solos.deep_view()[w] == msgs[t]);
                        } else {
                            assert(solos.deep_view()[prev.len() as int] == msgs[t]);
                        }
                    }
                }
            }
        }
        i += 1;
    }
    // second pass: group the provider messages by their id, in order of
    // first appearance, appending each message to its id's group
    let mut pg: Vec<(String, Vec<Message>)> = Vec::new();
    let pn = pvec.len();
    let ghost pv = pvec.deep_view();
    let mut a: usize = 0;
    proof {
        assert(flat_members(pg.deep_view()) =~= Seq::<MessageV>::empty());
        assert(pv.subrange(0, 0) =~= Seq::<MessageV>::empty());
        assert(flat_members(pg.deep_view()) =~= pv.subrange(0, 0));
    }
    while a < pn
        invariant
            pn == pvec.len(),
            pv == pvec.deep_view(),
            pv.len() == pn,
            a <= pn,
            forall|j: int|
                0 <= j < pv.len() ==> is_provider(#[trigger] pv[j]) && msgs.contains(pv[j]),
            pg_wf(pg.deep_view(), msgs),
            forall|g: int|
                0 <= g < pg.deep_view().len() ==> (#[trigger] pg.deep_view()[g].1).len() > 0,
            forall|t: int| 0 <= t < a ==> in_map(pg.deep_view(), #[trigger] pv[t]),
            flat_members(pg.deep_view()).to_multiset() =~= pv.subrange(0, a as int).to_multiset(),
        decreases pn - a,
    {
        let tid = match &pvec[a].thread_id {
            Some(t) => t.clone(),
            None => {
                proof {
                    assert(is_provider(pv[a as int]));
                }
                unreached()
            },
        };
        proof {
            assert(pv[a as int].thread_id == Some(tid@));
        }
        let ghost prev_pg = pg.deep_view();
        match find_key_index(&pg, tid.as_str()) {
            Some(g) => {
                // the id already has a group: append there
                let key_clone = pg[g].0.clone();
                let mut members = clone_message_vec(&pg[g].1);
                members.push(pvec[a].clone());
                pg.set(g, (key_clone, members));
                proof {
                    broadcast use vstd::multiset::group_multiset_axioms;

                    let gi = g as int;
                    assert(pvec[a as int]@ == pv[a as int]);
                    assert(key_clone@ == prev_pg[gi].0);
                    assert(members.deep_view() =~= prev_pg[gi].1.push(pv[a as int]));
                    assert(pg.deep_view() =~= prev_pg.update(
                        gi,
                        (prev_pg[gi].0, prev_pg[gi].1.push(pv[a as int])),
                    ));
                    assert(forall|g2: int|
                        0 <= g2 < pg.deep_view().len() && g2 != gi
                            ==> #[trigger] pg.deep_view()[g2] == prev_pg[g2]);
                    assert(pg.deep_view()[gi].0 == prev_pg[gi].0);
                    assert(pg.deep_view()[gi].1 =~= prev_pg[gi].1.push(pv[a as int]));
                    // the appended member fits the group's key
                    assert(prev_pg[gi].0 == tid@);
                    assert forall|g2: int, j: int|
                        0 <= g2 < pg.deep_view().len() && 0 <= j
                            < pg.deep_view()[g2].1.len() implies msgs.contains(
                        #[trigger] pg.deep_view()[g2].1[j],
                    ) && (pg.deep_view()[g2].1[j]).thread_id == Some(pg.deep_view()[g2].0) by {
                        if g2 == gi && j == prev_pg[gi].1.len() {
                            assert(pg.deep_view()[g2].1[j] == pv[a as int]);
                        } else if g2 == gi {
                            assert(pg.deep_view()[g2].1[j] == prev_pg[gi].1[j]);
                        }
                    }
                    // coverage: old members stay, the new one lands at gi
                    assert forall|t: int| 0 <= t < a + 1 implies in_map(
                        pg.deep_view(),
                        #[trigger] pv[t],
                    ) by {
                        if t < a {
                            let g0 = choose|g0: int|
                                0 <= g0 < prev_pg.len() && (#[trigger] prev_pg[g0].1).contains(
                                    pv[t],
                                );
                            if g0 == gi {
                                let w = choose|w: int|
                                    0 <= w < prev_pg[gi].1.len() && prev_pg[gi].1[w] == pv[t];
                                assert(pg.deep_view()[gi].1[w] == pv[t]);
                                assert(pg.deep_view()[gi].1.contains(pv[t]));
                            } else {
                                assert(pg.deep_view()[g0].1.contains(pv[t]));
                            }
                        } else {
                            assert(pg.deep_view()[gi].1[prev_pg[gi].1.len() as int] == pv[
                                t]);
                            assert(pg.deep_view()[gi].1.contains(pv[t]));
                        }
                    }
                    lemma_flat_update_push(prev_pg, gi, pv[a as int]);
                    vstd::seq_lib::to_multiset_build(pv.subrange(0, a as int), pv[a as int]);
                    assert(pv.subrange(0, a as int + 1) =~= pv.subrange(0, a as int).push(
                        pv[a as int],
                    ));
                }
            },
            None => {
                // a new id: a fresh group keyed by it
                let mut members: Vec<Message> = Vec::new();
                members.push(pvec[a].clone());
                pg.push((tid, members));
                proof {
                    broadcast use vstd::multiset::group_multiset_axioms;

                    let gi = prev_pg.len() as int;
                    assert(members.deep_view() =~= seq![pv[a as int]]);
                    assert(pg.deep_view() =~= prev_pg.push((tid@, seq![pv[a as int]])));
                    assert(pg.deep_view()[gi].0 == tid@);
                    assert(pg.deep_view()[gi].1 =~= seq![pv[a as int]]);
                    assert(!map_has_key(prev_pg, tid@));
                    assert forall|g1: int, g2: int|
                        0 <= g1 < g2 < pg.deep_view().len() implies (#[trigger] pg.deep_view()[
                        g1].0) != (#[trigger] pg.deep_view()[g2].0) by {
                        if g2 == gi {
                            if pg.deep_view()[g1].0 == tid@ {
                                assert(prev_pg[g1].0 == tid@);
                                assert(map_has_key(prev_pg, tid@));
                            }
                        } else {
                            assert(prev_pg[g1].0 != prev_pg[g2].0);
                        }
                    }
                    assert forall|g2: int, j: int|
                        0 <= g2 < pg.deep_view().len() && 0 <= j
                            < pg.deep_view()[g2].1.len() implies msgs.contains(
                        #[trigger] pg.deep_view()[g2].1[j],
                    ) && (pg.deep_view()[g2].1[j]).thread_id == Some(pg.deep_view()[g2].0) by {
                        if g2 == gi {
                            assert(pg.deep_view()[g2].1[j] == pv[a as int]);
                        }
                    }
                    assert forall|t: int| 0 <= t < a + 1 implies in_map(
                        pg.deep_view(),
                        #[trigger] pv[t],
                    ) by {
                        if t < a {
                            let g0 = choose|g0: int|
                                0 <= g0 < prev_pg.len() && (#[trigger] prev_pg[g0].1).contains(
                                    pv[t],
                                );
                            assert(pg.deep_view()[g0].1.contains(pv[t]));
                        } else {
                            assert(pg.deep_view()[gi].1[0] == pv[t]);
                            assert(pg.deep_view()[gi].1.contains(pv[t]));
                        }
                    }
                    lemma_flat_push(prev_pg, tid@, seq![pv[a as int]]);
                    vstd::seq_lib::lemma_multiset_commutative(
                        flat_members(prev_pg),
                        seq![pv[a as int]],
                    );
                    vstd::seq_lib::to_multiset_build(pv.subrange(0, a as int), pv[a as int]);
                    vstd::seq_lib::to_multiset_build(Seq::<MessageV>::empty(), pv[a as int]);
                    assert(seq![pv[a as int]] =~= Seq::<MessageV>::empty().push(pv[a as int]));
                    lemma_empty_to_multiset();
                    assert(pv.subrange(0, a as int + 1) =~= pv.subrange(0, a as int).push(
                        pv[a as int],
                    ));
                    assert(flat_members(pg.deep_view()).to_multiset() =~= pv.subrange(
                        0,
                        a as int + 1,
                    ).to_multiset());
                }
            },
        }
        a += 1;
    }
    proof {
        broadcast use vstd::multiset::group_multiset_axioms;

        assert forall|t: int|
            0 <= t < msgs.len() && is_provider(#[trigger] msgs[t]) implies in_map(
            pg.deep_view(),
            msgs[t],
        ) by {
            assert(pv.contains(msgs[t]));
            let w = choose|w: int| 0 <= w < pv.len() && pv[w] == msgs[t];
            assert(in_map(pg.deep_view(), pv[w]));
        }
        assert(pv.subrange(0, pn as int) =~= pv);
        assert(msgs.subrange(0, n as int) =~= msgs);
        assert(flat_members(pg.deep_view()).to_multiset().add(
            rest.deep_view().to_multiset(),
        ).add(solos.deep_view().to_multiset()) =~= msgs.to_multiset());
    }
    (pg, rest, solos)
}


/// A thread map: each entry a key and the messages of one conversation.
/// Rebuilt fresh every run; the order of entries is fixed by the input.
pub struct ThreadMap {
    pub groups: Vec<(String, Vec<Message>)>,
}

impl View for ThreadMap {
    type V = ThreadMapV;

    open spec fn view(&self) -> ThreadMapV {
        self.groups.deep_view()
    }
}

/// Every source message lies in some group.
pub open spec fn thread_map_covers(tm: ThreadMapV, msgs: Seq<MessageV>) -> bool {
    forall|i: int| 0 <= i < msgs.len() ==> in_map(tm, #[trigger] msgs[i])
}

/// Every group member is a source message.
pub open spec fn thread_map_sound(tm: ThreadMapV, msgs: Seq<MessageV>) -> bool {
    forall|g: int, j: int|
        0 <= g < tm.len() && 0 <= j < tm[g].1.len() ==> msgs.contains(#[trigger] tm[g].1[j])
}

/// Messages with one provider thread id stand in one group, and that group
/// carries the id as its key.
pub open spec fn provider_grouped(tm: ThreadMapV, msgs: Seq<MessageV>) -> bool {
    &&& forall|i: int|
        0 <= i < msgs.len() && is_provider(#[trigger] msgs[i]) ==> exists|g: int|
            0 <= g < tm.len() && Some(#[trigger] tm[g].0) == msgs[i].thread_id && tm[g].1.contains(
                msgs[i],
            )
    &&& forall|i: int, j: int|
        0 <= i < msgs.len() && 0 <= j < msgs.len() && is_provider(#[trigger] msgs[i])
            && is_provider(#[trigger] msgs[j]) && msgs[i].thread_id == msgs[j].thread_id
            ==> same_group(tm, msgs[i], msgs[j])
}

/// Thread closure: two header-graph messages that touch a common node id
/// stand in one group.
pub open spec fn graph_grouped(tm: ThreadMapV, msgs: Seq<MessageV>) -> bool {
    forall|i: int, j: int|
        0 <= i < msgs.len() && 0 <= j < msgs.len() && is_graph(#[trigger] msgs[i]) && is_graph(
            #[trigger] msgs[j],
        ) && ids_overlap(msgs[i], msgs[j]) ==> same_group(tm, msgs[i], msgs[j])
}

/// A message without any usable id stands in a group of its own.
pub open spec fn solos_isolated(tm: ThreadMapV, msgs: Seq<MessageV>) -> bool {
    forall|i: int|
        0 <= i < msgs.len() && is_solo(#[trigger] msgs[i]) ==> exists|g: int|
            0 <= g < tm.len() && (#[trigger] tm[g].1) == seq![msgs[i]]
}

/// No thread is empty.
pub open spec fn groups_nonempty(tm: ThreadMapV) -> bool {
    forall|g: int| 0 <= g < tm.len() ==> (#[trigger] tm[g].1).len() > 0
}

/// Every thread's messages, concatenated in map order.
pub open spec fn flat_members(tm: ThreadMapV) -> Seq<MessageV>
    decreases tm.len(),
{
    if tm.len() == 0 {
        Seq::empty()
    } else {
        flat_members(tm.drop_last()) + tm.last().1
    }
}

/// The map is a partition of the source: its members, taken together, are
/// the source messages, each exactly once.
pub open spec fn partitions(tm: ThreadMapV, msgs: Seq<MessageV>) -> bool {
    flat_members(tm).to_multiset() == msgs.to_multiset()
}

/// A member with a provider id sits in the group keyed by that id.
pub open spec fn provider_members_keyed(tm: ThreadMapV) -> bool {
    forall|g: int, j: int|
        0 <= g < tm.len() && 0 <= j < tm[g].1.len() && is_provider(#[trigger] tm[g].1[j])
            ==> tm[g].1[j].thread_id == Some(tm[g].0)
}

/// Whether some member of the group carries a provider id.
pub open spec fn has_provider_member(ms: Seq<MessageV>) -> bool {
    exists|j: int| 0 <= j < ms.len() && is_provider(#[trigger] ms[j])
}

/// Every group is of one family: provider-keyed messages, header-graph
/// messages, or solo messages — the three never mix in one thread.
pub open spec fn groups_homogeneous(tm: ThreadMapV) -> bool {
    forall|g: int|
        0 <= g < tm.len() ==> (forall|j: int|
            0 <= j < (#[trigger] tm[g].1).len() ==> is_provider(#[trigger] tm[g].1[j])) || (
        forall|j: int|
            0 <= j < tm[g].1.len() ==> is_graph(#[trigger] tm[g].1[j])) || (forall|j: int|
            0 <= j < tm[g].1.len() ==> is_solo(#[trigger] tm[g].1[j]))
}

/// Distinct groups holding provider messages carry distinct keys: the
/// provider-keyed threads are unique per id.
pub open spec fn provider_groups_distinct(tm: ThreadMapV) -> bool {
    forall|g1: int, g2: int|
        #![trigger tm[g1].0, tm[g2].0]
        0 <= g1 < g2 < tm.len() && has_provider_member(tm[g1].1) && has_provider_member(tm[g2].1)
            ==> tm[g1].0 != tm[g2].0
}

/// Everything [`build_thread_map`] promises of its result.
pub open spec fn thread_map_complete(tm: ThreadMapV, msgs: Seq<MessageV>) -> bool {
    &&& thread_map_covers(tm, msgs)
    &&& thread_map_sound(tm, msgs)
    &&& provider_grouped(tm, msgs)
    &&& graph_grouped(tm, msgs)
    &&& solos_isolated(tm, msgs)
    &&& groups_nonempty(tm)
    &&& partitions(tm, msgs)
    &&& provider_members_keyed(tm)
    &&& provider_groups_distinct(tm)
    &&& groups_homogeneous(tm)
}

/// The empty sequence reads as the empty multiset.
proof fn lemma_empty_to_multiset()
    ensures
        Seq::<MessageV>::empty().to_multiset() =~= Multiset::<MessageV>::empty(),
{
    broadcast use vstd::multiset::group_multiset_axioms;

    let s = Seq::<MessageV>::empty();
    s.to_multiset_ensures();
    assert forall|x: MessageV|
        s.to_multiset().count(x) == Multiset::<MessageV>::empty().count(x) by {
        assert(!s.contains(x));
    }
}

/// Appending one group appends its members.
proof fn lemma_flat_push(s: ThreadMapV, k: Seq<char>, ms: Seq<MessageV>)
    ensures
        flat_members(s.push((k, ms))) == flat_members(s) + ms,
{
    assert(s.push((k, ms)).drop_last() =~= s);
    assert(flat_members(s.push((k, ms))) =~= flat_members(s) + ms);
}

/// Appending one message to one group inserts it into the flat members.
proof fn lemma_flat_update_push(s: ThreadMapV, g: int, x: MessageV)
    requires
        0 <= g < s.len(),
    ensures
        flat_members(s.update(g, (s[g].0, s[g].1.push(x)))).to_multiset() =~= flat_members(
            s,
        ).to_multiset().insert(x),
    decreases s.len(),
{
    broadcast use vstd::multiset::group_multiset_axioms;

    let s2 = s.update(g, (s[g].0, s[g].1.push(x)));
    if g == s.len() - 1 {
        assert(s2.drop_last() =~= s.drop_last());
        assert(s2.last() == (s[g].0, s[g].1.push(x)));
        vstd::seq_lib::lemma_multiset_commutative(flat_members(s.drop_last()), s[g].1.push(x));
        vstd::seq_lib::to_multiset_build(s[g].1, x);
        vstd::seq_lib::lemma_multiset_commutative(flat_members(s.drop_last()), s[g].1);
        assert(s.drop_last().push(s.last()) =~= s);
        assert(flat_members(s2).to_multiset() =~= flat_members(s).to_multiset().insert(x));
    } else {
        let sd = s.drop_last();
        assert(s2.drop_last() =~= sd.update(g, (sd[g].0, sd[g].1.push(x))));
        assert(sd[g] == s[g]);
        assert(s2.last() == s.last());
        lemma_flat_update_push(sd, g, x);
        vstd::seq_lib::lemma_multiset_commutative(flat_members(s2.drop_last()), s.last().1);
        vstd::seq_lib::lemma_multiset_commutative(flat_members(sd), s.last().1);
        assert(flat_members(s2).to_multiset() =~= flat_members(s).to_multiset().insert(x));
    }
}

fn std_thread_key(n: u64) -> (k: String)
    ensures
        k@ == "std-thread-"@ + dec_of(n as int),
{
    let mut s = String::from_str("std-thread-");
    push_dec(&mut s, n);
    s
}

fn solo_key(uid: u32) -> (k: String)
    ensures
        k@ == "solo-uid-"@ + dec_of(uid as int),
{
    let mut s = String::from_str("solo-uid-");
    push_dec(&mut s, uid as u64);
    s
}

/// Builds the thread map for one run. Messages with a provider thread id
/// are grouped under that id; the rest are grouped by the connectivity of
/// their Message-ID, In-Reply-To and References headers under synthetic
/// keys; messages without a usable Message-ID each form a thread of their
/// own, keyed by their UID.
pub fn build_thread_map(messages: &Vec<Message>) -> (tm: ThreadMap)
    ensures
        thread_map_complete(tm@, messages.deep_view()),
{
    let ghost msgs = messages.deep_view();
    let (mut groups, rest, solos) = provider_partition(messages);
    let ghost pgv = groups.deep_view();
    let comps = graph_components(&rest);
    proof {
        broadcast use vstd::multiset::group_multiset_axioms;

        assert(comps@.subrange(0, 0) =~= Seq::<Comp>::empty());
        assert(comp_flat(comps@.subrange(0, 0)) =~= Seq::<MessageV>::empty());
    }
    // components become groups under sequential synthetic keys
    let mut c: usize = 0;
    while c < comps.len()
        invariant
            c <= comps.len(),
            groups.deep_view().len() == pgv.len() + c,
            forall|g: int| 0 <= g < pgv.len() ==> #[trigger] groups.deep_view()[g] == pgv[g],
            forall|t: int|
                0 <= t < c ==> (#[trigger] groups.deep_view()[pgv.len() + t]).1 == comps@[t]
                    .msgsv(),
            flat_members(groups.deep_view()) =~= flat_members(pgv) + comp_flat(
                comps@.subrange(0, c as int),
            ),
        decreases comps.len() - c,
    {
        let key = std_thread_key(c as u64);
        let member_msgs = clone_message_vec(&comps[c].msgs);
        let ghost prev = groups.deep_view();
        groups.push((key, member_msgs));
        proof {
            assert(groups.deep_view() =~= prev.push((key@, comps@[c as int].msgsv())));
            lemma_flat_push(prev, key@, comps@[c as int].msgsv());
            assert(comps@.subrange(0, c as int + 1).drop_last() =~= comps@.subrange(0, c as int));
            assert(comps@.subrange(0, c as int + 1).last() == comps@[c as int]);
            assert(comp_flat(comps@.subrange(0, c as int + 1)) =~= comp_flat(
                comps@.subrange(0, c as int),
            ) + comps@[c as int].msgsv());
            assert(flat_members(groups.deep_view()) =~= flat_members(pgv) + comp_flat(
                comps@.subrange(0, c as int + 1),
            ));
        }
        c += 1;
    }
    let ghost midv = groups.deep_view();
    // solo messages each become a singleton group keyed by their uid
    let mut w: usize = 0;
    proof {
        assert(solos.deep_view().subrange(0, 0) =~= Seq::<MessageV>::empty());
        assert(flat_members(midv) + solos.deep_view().subrange(0, 0) =~= flat_members(midv));
    }
    while w < solos.len()
        invariant
            w <= solos.len(),
            groups.deep_view().len() == midv.len() + w,
            forall|g: int| 0 <= g < midv.len() ==> #[trigger] groups.deep_view()[g] == midv[g],
            forall|t: int|
                0 <= t < w ==> (#[trigger] groups.deep_view()[midv.len() + t]).1 == seq![
                    solos.deep_view()[t],
                ],
            flat_members(groups.deep_view()) =~= flat_members(midv) + solos.deep_view().subrange(
                0,
                w as int,
            ),
        decreases solos.len() - w,
    {
        let key = solo_key(solos[w].uid);
        let mut single: Vec<Message> = Vec::new();
        single.push(solos[w].clone());
        let ghost prev = groups.deep_view();
        proof {
            assert(single.deep_view() =~= seq![solos.deep_view()[w as int]]);
        }
        groups.push((key, single));
        proof {
            assert(groups.deep_view() =~= prev.push(
                (key@, seq![solos.deep_view()[w as int]]),
            ));
            lemma_flat_push(prev, key@, seq![solos.deep_view()[w as int]]);
            assert(flat_members(groups.deep_view()) =~= flat_members(midv)
                + solos.deep_view().subrange(0, w as int + 1));
        }
        w += 1;
    }
    let tm = ThreadMap { groups };
    proof {
        let tv = tm@;
        let pn = pgv.len() as int;
        let cn = comps@.len() as int;
        let restv = rest.deep_view();
        let solov = solos.deep_view();
        assert(tv.len() == pn + cn + solov.len());
        assert(forall|g: int| 0 <= g < pn ==> #[trigger] tv[g] == pgv[g]);
        assert(forall|t: int| 0 <= t < cn ==> (#[trigger] tv[pn + t]).1 == comps@[t].msgsv());
        assert(forall|t: int|
            0 <= t < solov.len() ==> (#[trigger] tv[pn + cn + t]).1 == seq![solov[t]]);
        // soundness
        assert forall|g: int, j: int|
            0 <= g < tv.len() && 0 <= j < tv[g].1.len() implies msgs.contains(
            #[trigger] tv[g].1[j],
        ) by {
            if g < pn {
                assert(tv[g].1[j] == pgv[g].1[j]);
            } else if g < pn + cn {
                let cc = g - pn;
                assert((tv[pn + cc]).1 == comps@[cc].msgsv());
                assert(pn + cc == g);
                assert(comps_view(comps@)[cc].1 == comps@[cc].msgsv());
                assert(restv.contains(comps@[cc].msgsv()[j]));
            } else {
                let t = g - pn - cn;
                assert((tv[pn + cn + t]).1 == seq![solov[t]]);
                assert(pn + cn + t == g);
                assert(tv[g].1[j] == solov[t]);
                assert(msgs.contains(solov[t]));
            }
        }
        // provider grouping
        assert forall|i: int|
            0 <= i < msgs.len() && is_provider(#[trigger] msgs[i]) implies exists|g: int|
            0 <= g < tv.len() && Some(#[trigger] tv[g].0) == msgs[i].thread_id && tv[g].1.contains(
                msgs[i],
            ) by {
            assert(in_map(pgv, msgs[i]));
            let g0 = choose|g0: int|
                0 <= g0 < pgv.len() && (#[trigger] pgv[g0].1).contains(msgs[i]);
            let j0 = choose|j0: int| 0 <= j0 < pgv[g0].1.len() && pgv[g0].1[j0] == msgs[i];
            assert(pgv[g0].1[j0].thread_id == Some(pgv[g0].0));
            assert(tv[g0].0 == pgv[g0].0);
            assert(tv[g0].1.contains(msgs[i]));
            assert(Some(tv[g0].0) == msgs[i].thread_id);
        }
        assert forall|i: int, j: int|
            0 <= i < msgs.len() && 0 <= j < msgs.len() && is_provider(#[trigger] msgs[i])
                && is_provider(#[trigger] msgs[j]) && msgs[i].thread_id
                == msgs[j].thread_id implies same_group(tv, msgs[i], msgs[j]) by {
            assert(in_map(pgv, msgs[i]));
            assert(in_map(pgv, msgs[j]));
            let g1 = choose|g1: int|
                0 <= g1 < pgv.len() && (#[trigger] pgv[g1].1).contains(msgs[i]);
            let g2 = choose|g2: int|
                0 <= g2 < pgv.len() && (#[trigger] pgv[g2].1).contains(msgs[j]);
            let j1 = choose|j1: int| 0 <= j1 < pgv[g1].1.len() && pgv[g1].1[j1] == msgs[i];
            let j2 = choose|j2: int| 0 <= j2 < pgv[g2].1.len() && pgv[g2].1[j2] == msgs[j];
            assert(pgv[g1].1[j1].thread_id == Some(pgv[g1].0));
            assert(pgv[g2].1[j2].thread_id == Some(pgv[g2].0));
            assert(pgv[g1].0 == pgv[g2].0);
            assert(g1 == g2) by {
                if g1 < g2 {
                    assert(pgv[g1].0 != pgv[g2].0);
                } else if g2 < g1 {
                    assert(pgv[g2].0 != pgv[g1].0);
                }
            }
            assert(tv[g1].1.contains(msgs[i]) && tv[g1].1.contains(msgs[j]));
        }
        // graph closure
        assert forall|i: int, j: int|
            0 <= i < msgs.len() && 0 <= j < msgs.len() && is_graph(#[trigger] msgs[i]) && is_graph(
                #[trigger] msgs[j],
            ) && ids_overlap(msgs[i], msgs[j]) implies same_group(tv, msgs[i], msgs[j]) by {
            assert(restv.contains(msgs[i]));
            assert(restv.contains(msgs[j]));
            let wi = choose|wi: int| 0 <= wi < restv.len() && restv[wi] == msgs[i];
            let wj = choose|wj: int| 0 <= wj < restv.len() && restv[wj] == msgs[j];
            assert(covers_prefix(comps@, restv, restv.len() as int));
            let ci = choose|ci: int|
                0 <= ci < comps@.len() && (#[trigger] comps@[ci].msgsv()).contains(restv[wi]);
            let cj = choose|cj: int|
                0 <= cj < comps@.len() && (#[trigger] comps@[cj].msgsv()).contains(restv[wj]);
            let cv = comps_view(comps@);
            let ui = choose|ui: int|
                0 <= ui < comps@[ci].msgsv().len() && comps@[ci].msgsv()[ui] == msgs[i];
            let uj = choose|uj: int|
                0 <= uj < comps@[cj].msgsv().len() && comps@[cj].msgsv()[uj] == msgs[j];
            assert(cv[ci].1[ui] == msgs[i]);
            assert(cv[cj].1[uj] == msgs[j]);
            assert(sub_ids(msg_ids(msgs[i]), cv[ci].0));
            assert(sub_ids(msg_ids(msgs[j]), cv[cj].0));
            let (a, b) = choose|a: int, b: int|
                0 <= a < msg_ids(msgs[i]).len() && 0 <= b < msg_ids(msgs[j]).len() && msg_ids(
                    msgs[i],
                )[a] == msg_ids(msgs[j])[b];
            let x = msg_ids(msgs[i])[a];
            assert(cv[ci].0.contains(x));
            assert(cv[cj].0.contains(x));
            assert(ci == cj) by {
                if ci != cj {
                    let u = choose|u: int| 0 <= u < cv[ci].0.len() && cv[ci].0[u] == x;
                    assert(!cv[cj].0.contains(cv[ci].0[u]));
                }
            }
            assert(tv[pn + ci].1 == comps@[ci].msgsv());
            assert(tv[pn + ci].1.contains(msgs[i]) && tv[pn + ci].1.contains(msgs[j]));
        }
        // solo isolation
        assert forall|i: int|
            0 <= i < msgs.len() && is_solo(#[trigger] msgs[i]) implies exists|g: int|
            0 <= g < tv.len() && (#[trigger] tv[g].1) == seq![msgs[i]] by {
            assert(solov.contains(msgs[i]));
            let t = choose|t: int| 0 <= t < solov.len() && solov[t] == msgs[i];
            assert(tv[pn + cn + t].1 == seq![solov[t]]);
        }
        // the map partitions the source messages
        assert(comps@.subrange(0, comps@.len() as int) =~= comps@);
        assert(solov.subrange(0, solov.len() as int) =~= solov);
        assert(flat_members(tv) =~= flat_members(pgv) + comp_flat(comps@) + solov);
        assert(flat_members(tv).to_multiset() =~= msgs.to_multiset()) by {
            broadcast use vstd::multiset::group_multiset_axioms;

            vstd::seq_lib::lemma_multiset_commutative(
                flat_members(pgv) + comp_flat(comps@),
                solov,
            );
            vstd::seq_lib::lemma_multiset_commutative(flat_members(pgv), comp_flat(comps@));
            assert forall|x: MessageV|
                flat_members(tv).to_multiset().count(x) == msgs.to_multiset().count(x) by {
                assert(flat_members(pgv).to_multiset().add(restv.to_multiset()).add(
                    solov.to_multiset(),
                ).count(x) == msgs.to_multiset().count(x));
                assert(comp_flat(comps@).to_multiset().count(x) == restv.to_multiset().count(x));
            }
        }
        // every group draws from one family only
        assert forall|g: int| 0 <= g < tv.len() implies (forall|j: int|
            0 <= j < (#[trigger] tv[g].1).len() ==> is_provider(#[trigger] tv[g].1[j])) || (
        forall|j: int| 0 <= j < tv[g].1.len() ==> is_graph(#[trigger] tv[g].1[j])) || (forall|
            j: int,
        | 0 <= j < tv[g].1.len() ==> is_solo(#[trigger] tv[g].1[j])) by {
            if g < pn {
                assert forall|j: int| 0 <= j < tv[g].1.len() implies is_provider(
                    #[trigger] tv[g].1[j],
                ) by {
                    assert(tv[g].1[j] == pgv[g].1[j]);
                    assert(pgv[g].1[j].thread_id == Some(pgv[g].0));
                }
            } else if g < pn + cn {
                let cc = g - pn;
                assert((tv[pn + cc]).1 == comps@[cc].msgsv());
                assert(pn + cc == g);
                assert(comps_view(comps@)[cc].1 == comps@[cc].msgsv());
                assert forall|j: int| 0 <= j < tv[g].1.len() implies is_graph(
                    #[trigger] tv[g].1[j],
                ) by {
                    assert(restv.contains(comps@[cc].msgsv()[j]));
                    let wz = choose|wz: int| 0 <= wz < restv.len() && restv[wz] == tv[g].1[j];
                    assert(is_graph(restv[wz]));
                }
            } else {
                let t = g - pn - cn;
                assert((tv[pn + cn + t]).1 == seq![solov[t]]);
                assert(pn + cn + t == g);
                assert forall|j: int| 0 <= j < tv[g].1.len() implies is_solo(
                    #[trigger] tv[g].1[j],
                ) by {
                    assert(tv[g].1[j] == solov[t]);
                }
            }
        }
        // provider members only sit in the provider-keyed prefix, whose
        // keys are pairwise distinct
        assert forall|g1: int, g2: int|
            #![trigger tv[g1].0, tv[g2].0]
            0 <= g1 < g2 < tv.len() && has_provider_member(tv[g1].1) && has_provider_member(
                tv[g2].1,
            ) implies tv[g1].0 != tv[g2].0 by {
            assert forall|g: int|
                0 <= g < tv.len() && has_provider_member(#[trigger] tv[g].1) implies g < pn by {
                if pn <= g < pn + cn {
                    let cc = g - pn;
                    assert((tv[pn + cc]).1 == comps@[cc].msgsv());
                    assert(pn + cc == g);
                    assert(comps_view(comps@)[cc].1 == comps@[cc].msgsv());
                    let j = choose|j: int|
                        0 <= j < tv[g].1.len() && is_provider(#[trigger] tv[g].1[j]);
                    assert(restv.contains(comps@[cc].msgsv()[j]));
                    let wz = choose|wz: int| 0 <= wz < restv.len() && restv[wz] == tv[g].1[j];
                    assert(is_graph(restv[wz]));
                } else if g >= pn + cn {
                    let t = g - pn - cn;
                    assert((tv[pn + cn + t]).1 == seq![solov[t]]);
                    assert(pn + cn + t == g);
                    let j = choose|j: int|
                        0 <= j < tv[g].1.len() && is_provider(#[trigger] tv[g].1[j]);
                    assert(tv[g].1[j] == solov[t]);
                    assert(is_solo(solov[t]));
                }
            }
            assert(tv[g1].0 == pgv[g1].0);
            assert(tv[g2].0 == pgv[g2].0);
        }
        // a member with a provider id sits in the group keyed by it
        assert forall|g: int, j: int|
            0 <= g < tv.len() && 0 <= j < tv[g].1.len() && is_provider(
                #[trigger] tv[g].1[j],
            ) implies tv[g].1[j].thread_id == Some(tv[g].0) by {
            if g < pn {
                assert(tv[g].1[j] == pgv[g].1[j]);
                assert(tv[g].0 == pgv[g].0);
            } else if g < pn + cn {
                let cc = g - pn;
                assert((tv[pn + cc]).1 == comps@[cc].msgsv());
                assert(pn + cc == g);
                assert(comps_view(comps@)[cc].1 == comps@[cc].msgsv());
                assert(restv.contains(comps@[cc].msgsv()[j]));
                let wz = choose|wz: int| 0 <= wz < restv.len() && restv[wz] == tv[g].1[j];
                assert(is_graph(restv[wz]));
            } else {
                let t = g - pn - cn;
                assert((tv[pn + cn + t]).1 == seq![solov[t]]);
                assert(pn + cn + t == g);
                assert(tv[g].1[j] == solov[t]);
                assert(is_solo(solov[t]));
            }
        }
        // no thread is empty
        assert forall|g: int| 0 <= g < tv.len() implies (#[trigger] tv[g].1).len() > 0 by {
            if g < pn {
                assert(tv[g].1 == pgv[g].1);
            } else if g < pn + cn {
                let cc = g - pn;
                assert((tv[pn + cc]).1 == comps@[cc].msgsv());
                assert(pn + cc == g);
            } else {
                let t = g - pn - cn;
                assert((tv[pn + cn + t]).1 == seq![solov[t]]);
                assert(pn + cn + t == g);
            }
        }
        // coverage
        assert forall|i: int| 0 <= i < msgs.len() implies in_map(tv, #[trigger] msgs[i]) by {
            if is_provider(msgs[i]) {
                let g0 = choose|g0: int|
                    0 <= g0 < tv.len() && Some(#[trigger] tv[g0].0) == msgs[i].thread_id
                        && tv[g0].1.contains(msgs[i]);
                assert(tv[g0].1.contains(msgs[i]));
            } else if is_graph(msgs[i]) {
                assert(restv.contains(msgs[i]));
                let wi = choose|wi: int| 0 <= wi < restv.len() && restv[wi] == msgs[i];
                assert(covers_prefix(comps@, restv, restv.len() as int));
                let ci = choose|ci: int|
                    0 <= ci < comps@.len() && (#[trigger] comps@[ci].msgsv()).contains(restv[wi]);
                assert(tv[pn + ci].1 == comps@[ci].msgsv());
                assert(tv[pn + ci].1.contains(msgs[i]));
            } else {
                assert(is_solo(msgs[i]));
                let g0 = choose|g0: int|
                    0 <= g0 < tv.len() && (#[trigger] tv[g0].1) == seq![msgs[i]];
                assert(tv[g0].1[0] == msgs[i]);
                assert(tv[g0].1.contains(msgs[i]));
            }
        }
    }
    tm
}

/// An element at an index counts at least once.
proof fn lemma_seq_count_at(s: Seq<MessageV>, i: int, m: MessageV)
    requires
        0 <= i < s.len(),
        s[i] == m,
    ensures
        s.to_multiset().count(m) >= 1,
{
    s.to_multiset_ensures();
    assert(s.contains(m));
}

/// Two distinct positions of the same value count at least twice.
proof fn lemma_seq_count_two(s: Seq<MessageV>, i: int, j: int, m: MessageV)
    requires
        0 <= i < s.len(),
        0 <= j < s.len(),
        i != j,
        s[i] == m,
        s[j] == m,
    ensures
        s.to_multiset().count(m) >= 2,
    decreases s.len(),
{
    broadcast use vstd::multiset::group_multiset_axioms;

    let d = s.drop_last();
    assert(s =~= d.push(s.last()));
    vstd::seq_lib::to_multiset_build(d, s.last());
    if i < s.len() - 1 && j < s.len() - 1 {
        lemma_seq_count_two(d, i, j, m);
    } else if i == s.len() - 1 {
        lemma_seq_count_at(d, j, m);
        assert(s.last() == m);
    } else {
        lemma_seq_count_at(d, i, m);
        assert(s.last() == m);
    }
}

/// A group member counts at least once among the flat members.
proof fn lemma_flat_count_at(tm: ThreadMapV, g: int, j: int, m: MessageV)
    requires
        0 <= g < tm.len(),
        0 <= j < tm[g].1.len(),
        tm[g].1[j] == m,
    ensures
        flat_members(tm).to_multiset().count(m) >= 1,
    decreases tm.len(),
{
    broadcast use vstd::multiset::group_multiset_axioms;

    let d = tm.drop_last();
    vstd::seq_lib::lemma_multiset_commutative(flat_members(d), tm.last().1);
    if g < tm.len() - 1 {
        assert(d[g] == tm[g]);
        lemma_flat_count_at(d, g, j, m);
    } else {
        lemma_seq_count_at(tm.last().1, j, m);
    }
}

/// Two distinct member positions count at least twice among the flat
/// members.
proof fn lemma_flat_count_two(tm: ThreadMapV, g1: int, j1: int, g2: int, j2: int, m: MessageV)
    requires
        0 <= g1 < tm.len(),
        0 <= j1 < tm[g1].1.len(),
        tm[g1].1[j1] == m,
        0 <= g2 < tm.len(),
        0 <= j2 < tm[g2].1.len(),
        tm[g2].1[j2] == m,
        g1 != g2 || j1 != j2,
    ensures
        flat_members(tm).to_multiset().count(m) >= 2,
    decreases tm.len(),
{
    broadcast use vstd::multiset::group_multiset_axioms;

    let d = tm.drop_last();
    vstd::seq_lib::lemma_multiset_commutative(flat_members(d), tm.last().1);
    if g1 < tm.len() - 1 && g2 < tm.len() - 1 {
        assert(d[g1] == tm[g1]);
        assert(d[g2] == tm[g2]);
        lemma_flat_count_two(d, g1, j1, g2, j2, m);
    } else if g1 == tm.len() - 1 && g2 == tm.len() - 1 {
        lemma_seq_count_two(tm.last().1, j1, j2, m);
    } else if g1 == tm.len() - 1 {
        assert(d[g2] == tm[g2]);
        lemma_flat_count_at(d, g2, j2, m);
        lemma_seq_count_at(tm.last().1, j1, m);
    } else {
        assert(d[g1] == tm[g1]);
        lemma_flat_count_at(d, g1, j1, m);
        lemma_seq_count_at(tm.last().1, j2, m);
    }
}

/// Exactly-once membership: a message that the fetch holds once sits at
/// one position of the map only — threads neither overlap nor repeat it.
pub proof fn lemma_member_exactly_once(
    tm: ThreadMapV,
    msgs: Seq<MessageV>,
    m: MessageV,
    g1: int,
    j1: int,
    g2: int,
    j2: int,
)
    requires
        thread_map_complete(tm, msgs),
        msgs.to_multiset().count(m) == 1,
        0 <= g1 < tm.len(),
        0 <= j1 < tm[g1].1.len(),
        tm[g1].1[j1] == m,
        0 <= g2 < tm.len(),
        0 <= j2 < tm[g2].1.len(),
        tm[g2].1[j2] == m,
    ensures
        g1 == g2,
        j1 == j2,
{
    if g1 != g2 || j1 != j2 {
        lemma_flat_count_two(tm, g1, j1, g2, j2, m);
        assert(flat_members(tm).to_multiset() == msgs.to_multiset());
    }
}

/// Uniqueness of provider-keyed threads: two groups that both hold a
/// once-fetched provider message under one key are the same group.
pub proof fn lemma_provider_key_unique(
    tm: ThreadMapV,
    msgs: Seq<MessageV>,
    g1: int,
    j1: int,
    g2: int,
    j2: int,
)
    requires
        thread_map_complete(tm, msgs),
        0 <= g1 < tm.len(),
        0 <= j1 < tm[g1].1.len(),
        0 <= g2 < tm.len(),
        0 <= j2 < tm[g2].1.len(),
        is_provider(tm[g1].1[j1]),
        is_provider(tm[g2].1[j2]),
        tm[g1].0 == tm[g2].0,
        msgs.to_multiset().count(tm[g1].1[j1]) == 1,
        msgs.to_multiset().count(tm[g2].1[j2]) == 1,
    ensures
        g1 == g2,
{
    broadcast use vstd::multiset::group_multiset_axioms;

    let m1 = tm[g1].1[j1];
    let m2 = tm[g2].1[j2];
    assert(m1.thread_id == Some(tm[g1].0));
    assert(m2.thread_id == Some(tm[g2].0));
    assert(msgs.contains(m1)) by {
        msgs.to_multiset_ensures();
    }
    assert(msgs.contains(m2)) by {
        msgs.to_multiset_ensures();
    }
    let w1 = choose|w: int| 0 <= w < msgs.len() && msgs[w] == m1;
    let w2 = choose|w: int| 0 <= w < msgs.len() && msgs[w] == m2;
    assert(same_group(tm, msgs[w1], msgs[w2]));
    let g = choose|g: int|
        0 <= g < tm.len() && (#[trigger] tm[g].1).contains(m1) && tm[g].1.contains(m2);
    let u1 = choose|u: int| 0 <= u < tm[g].1.len() && tm[g].1[u] == m1;
    let u2 = choose|u: int| 0 <= u < tm[g].1.len() && tm[g].1[u] == m2;
    lemma_member_exactly_once(tm, msgs, m1, g1, j1, g, u1);
    lemma_member_exactly_once(tm, msgs, m2, g2, j2, g, u2);
}

/// Thread closure, as a law of the finished map: messages whose Message-ID,
/// In-Reply-To or References overlap stand in one thread, wherever they sat
/// in the fetch order.
pub proof fn lemma_thread_closure(tm: ThreadMapV, msgs: Seq<MessageV>, i: int, j: int)
    requires
        thread_map_complete(tm, msgs),
        0 <= i < msgs.len(),
        0 <= j < msgs.len(),
        is_graph(msgs[i]),
        is_graph(msgs[j]),
        ids_overlap(msgs[i], msgs[j]),
    ensures
        same_group(tm, msgs[i], msgs[j]),
{
}


/// The key of the first group holding a message with this uid, scanning in
/// map order.
pub open spec fn first_key_with_uid(tm: ThreadMapV, uid: u32) -> Option<Seq<char>>
    decreases tm.len(),
{
    if tm.len() == 0 {
        None
    } else if exists|j: int| 0 <= j < tm[0].1.len() && (#[trigger] tm[0].1[j]).uid == uid {
        Some(tm[0].0)
    } else {
        first_key_with_uid(tm.drop_first(), uid)
    }
}

/// What [`ThreadProcessor::get_thread_id`] returns: the message's own
/// provider key when the map carries it, else the first group holding its
/// uid.
pub open spec fn thread_id_of(tm: ThreadMapV, m: MessageV) -> Option<Seq<char>> {
    match m.thread_id {
        Some(t) => if map_has_key(tm, t) {
            Some(t)
        } else {
            first_key_with_uid(tm, m.uid)
        },
        None => first_key_with_uid(tm, m.uid),
    }
}

/// The messages of the first group carrying this key.
pub open spec fn group_for_key(tm: ThreadMapV, key: Seq<char>) -> Option<Seq<MessageV>>
    decreases tm.len(),
{
    if tm.len() == 0 {
        None
    } else if tm[0].0 == key {
        Some(tm[0].1)
    } else {
        group_for_key(tm.drop_first(), key)
    }
}

proof fn lemma_group_for_key_at(tm: ThreadMapV, key: Seq<char>, g: int)
    requires
        0 <= g <= tm.len(),
        forall|t: int| 0 <= t < g ==> (#[trigger] tm[t].0) != key,
        g < tm.len() ==> tm[g].0 == key,
    ensures
        g < tm.len() ==> group_for_key(tm, key) == Some(tm[g].1),
        g == tm.len() ==> group_for_key(tm, key) is None,
    decreases g,
{
    if tm.len() == 0 {
    } else if g == 0 {
    } else {
        assert(tm[0].0 != key);
        let d = tm.drop_first();
        assert(forall|t: int| 0 <= t < g - 1 ==> (#[trigger] d[t].0) == tm[t + 1].0);
        lemma_group_for_key_at(d, key, g - 1);
        if g < tm.len() {
            assert(d[g - 1] == tm[g]);
        }
    }
}

proof fn lemma_first_key_with_uid_at(tm: ThreadMapV, uid: u32, g: int)
    requires
        0 <= g <= tm.len(),
        forall|t: int, j: int|
            0 <= t < g && 0 <= j < tm[t].1.len() ==> (#[trigger] tm[t].1[j]).uid != uid,
        g < tm.len() ==> exists|j: int| 0 <= j < tm[g].1.len() && (#[trigger] tm[g].1[j]).uid
            == uid,
    ensures
        g < tm.len() ==> first_key_with_uid(tm, uid) == Some(tm[g].0),
        g == tm.len() ==> first_key_with_uid(tm, uid) is None,
    decreases g,
{
    if tm.len() == 0 {
    } else if g == 0 {
    } else {
        assert(!(exists|j: int| 0 <= j < tm[0].1.len() && (#[trigger] tm[0].1[j]).uid == uid));
        let d = tm.drop_first();
        assert(forall|t: int| 0 <= t < d.len() ==> #[trigger] d[t] == tm[t + 1]);
        lemma_first_key_with_uid_at(d, uid, g - 1);
    }
}

impl ThreadMap {
    /// The number of threads.
    pub fn len(&self) -> (r: usize)
        ensures
            r == self@.len(),
    {
        self.groups.len()
    }

    /// Whether some thread carries this key.
    pub fn contains_key(&self, key: &str) -> (r: bool)
        ensures
            r == map_has_key(self@, key@),
    {
        find_key(&self.groups, key)
    }

    /// The messages of the thread carrying this key, if there is one.
    pub fn get(&self, key: &str) -> (r: Option<&Vec<Message>>)
        ensures
            match r {
                Some(v) => group_for_key(self@, key@) == Some(v.deep_view()),
                None => group_for_key(self@, key@) is None,
            },
    {
        let n = self.groups.len();
        let mut g: usize = 0;
        while g < n
            invariant
                n == self.groups.len(),
                g <= n,
                forall|t: int| 0 <= t < g ==> (#[trigger] self@[t].0) != key@,
            decreases n - g,
        {
            if str_eq(self.groups[g].0.as_str(), key) {
                proof {
                    assert(self@[g as int].0 == key@);
                    lemma_group_for_key_at(self@, key@, g as int);
                }
                return Some(&self.groups[g].1);
            }
            g += 1;
        }
        proof {
            lemma_group_for_key_at(self@, key@, n as int);
        }
        None
    }
}

/// Applies one decision — a content match or a retention expiry — across a
/// whole conversation at a time, through the thread map built once per run.
pub struct ThreadProcessor {
    thread_map: ThreadMap,
}

impl View for ThreadProcessor {
    type V = ThreadMapV;

    closed spec fn view(&self) -> ThreadMapV {
        self.thread_map@
    }
}

impl ThreadProcessor {
    /// Builds the processor and its thread map from the fetched messages.
    pub fn new(messages: &Vec<Message>) -> (r: ThreadProcessor)
        ensures
            thread_map_complete(r@, messages.deep_view()),
    {
        let thread_map = build_thread_map(messages);
        ThreadProcessor { thread_map }
    }

    /// The key of the thread this message belongs to, if any: its own
    /// provider key when the map carries it, else the first thread holding
    /// its uid.
    pub fn get_thread_id(&self, msg: &Message) -> (r: Option<String>)
        ensures
            r.deep_view() == thread_id_of(self@, msg@),
    {
        match &msg.thread_id {
            Some(tid) => {
                if self.thread_map.contains_key(tid.as_str()) {
                    return Some(tid.clone());
                }
            },
            None => {},
        }
        let ghost no_provider_hit = match msg@.thread_id {
            Some(t) => !map_has_key(self@, t),
            None => true,
        };
        proof {
            assert(no_provider_hit);
        }
        let n = self.thread_map.groups.len();
        let mut g: usize = 0;
        while g < n
            invariant
                n == self@.len(),
                g <= n,
                no_provider_hit == match msg@.thread_id {
                    Some(t) => !map_has_key(self@, t),
                    None => true,
                },
                no_provider_hit,
                forall|t: int, j: int|
                    0 <= t < g && 0 <= j < self@[t].1.len() ==> (#[trigger] self@[t].1[j]).uid
                        != msg@.uid,
            decreases n - g,
        {
            let grp = &self.thread_map.groups[g];
            let m = grp.1.len();
            let mut j: usize = 0;
            while j < m
                invariant
                    n == self@.len(),
                    g < n,
                    m == self@[g as int].1.len(),
                    grp == &self.thread_map.groups[g as int],
                    j <= m,
                    no_provider_hit == match msg@.thread_id {
                        Some(t) => !map_has_key(self@, t),
                        None => true,
                    },
                    no_provider_hit,
                    forall|t: int, j2: int|
                        0 <= t < g && 0 <= j2 < self@[t].1.len()
                            ==> (#[trigger] self@[t].1[j2]).uid != msg@.uid,
                    forall|t: int|
                        0 <= t < j ==> (#[trigger] self@[g as int].1[t]).uid != msg@.uid,
                decreases m - j,
            {
                if grp.1[j].uid == msg.uid {
                    proof {
                        assert(grp.0@ == self@[g as int].0);
                        assert((self@[g as int].1[j as int]).uid == msg@.uid);
                        lemma_first_key_with_uid_at(self@, msg@.uid, g as int);
                    }
                    return Some(grp.0.clone());
                }
                j += 1;
            }
            g += 1;
        }
        proof {
            lemma_first_key_with_uid_at(self@, msg@.uid, n as int);
        }
        None
    }
}


/// The index of the first group holding a message with this uid.
pub open spec fn group_idx_with_uid(tm: ThreadMapV, uid: u32) -> Option<int>
    decreases tm.len(),
{
    if tm.len() == 0 {
        None
    } else if exists|j: int| 0 <= j < tm[0].1.len() && (#[trigger] tm[0].1[j]).uid == uid {
        Some(0)
    } else {
        match group_idx_with_uid(tm.drop_first(), uid) {
            Some(g) => Some(g + 1),
            None => None,
        }
    }
}

/// The conversation a message is processed with: the messages of the first
/// group holding its uid, or the message alone when no group does.
pub open spec fn thread_members_of(tm: ThreadMapV, m: MessageV) -> Seq<MessageV> {
    match group_idx_with_uid(tm, m.uid) {
        Some(g) => tm[g].1,
        None => seq![m],
    }
}

proof fn lemma_group_idx_with_uid_at(tm: ThreadMapV, uid: u32, g: int)
    requires
        0 <= g <= tm.len(),
        forall|t: int, j: int|
            0 <= t < g && 0 <= j < tm[t].1.len() ==> (#[trigger] tm[t].1[j]).uid != uid,
        g < tm.len() ==> exists|j: int| 0 <= j < tm[g].1.len() && (#[trigger] tm[g].1[j]).uid
            == uid,
    ensures
        g < tm.len() ==> group_idx_with_uid(tm, uid) == Some(g),
        g == tm.len() ==> group_idx_with_uid(tm, uid) is None,
    decreases g,
{
    if tm.len() == 0 {
    } else if g == 0 {
    } else {
        assert(!(exists|j: int| 0 <= j < tm[0].1.len() && (#[trigger] tm[0].1[j]).uid == uid));
        let d = tm.drop_first();
        assert(forall|t: int| 0 <= t < d.len() ==> #[trigger] d[t] == tm[t + 1]);
        lemma_group_idx_with_uid_at(d, uid, g - 1);
    }
}

/// The conversation always holds the message's uid: either the found group
/// carries it, or the message stands alone.
pub proof fn lemma_members_carry_uid(tm: ThreadMapV, m: MessageV)
    ensures
        exists|j: int|
            0 <= j < thread_members_of(tm, m).len() && (#[trigger] thread_members_of(tm, m)[j]).uid
                == m.uid,
    decreases tm.len(),
{
    match group_idx_with_uid(tm, m.uid) {
        Some(g) => {
            lemma_group_idx_carries(tm, m.uid);
        },
        None => {
            assert(thread_members_of(tm, m)[0] == m);
        },
    }
}

proof fn lemma_group_idx_carries(tm: ThreadMapV, uid: u32)
    requires
        group_idx_with_uid(tm, uid) is Some,
    ensures
        ({
            let g = group_idx_with_uid(tm, uid)->0;
            &&& 0 <= g < tm.len()
            &&& exists|j: int| 0 <= j < tm[g].1.len() && (#[trigger] tm[g].1[j]).uid == uid
        }),
    decreases tm.len(),
{
    if tm.len() == 0 {
    } else if exists|j: int| 0 <= j < tm[0].1.len() && (#[trigger] tm[0].1[j]).uid == uid {
    } else {
        let d = tm.drop_first();
        lemma_group_idx_carries(d, uid);
        let g = group_idx_with_uid(tm, uid)->0;
        assert(d[g - 1] == tm[g]);
    }
}

/// The instant a member is ordered by: the epoch reading of its stored
/// timestamp; text that does not parse orders below everything that does.
pub open spec fn epoch_key(m: MessageV) -> Option<int> {
    rfc3339_epoch_of(m.date)
}

/// The order on those readings.
pub open spec fn opt_epoch_le(a: Option<int>, b: Option<int>) -> bool {
    match (a, b) {
        (Option::None, _) => true,
        (Option::Some(_), Option::None) => false,
        (Option::Some(x), Option::Some(y)) => x <= y,
    }
}

/// The newest message of a non-empty list by timestamp; of equally dated
/// messages the last one governs.
pub open spec fn newest(ms: Seq<MessageV>) -> MessageV
    decreases ms.len(),
{
    if ms.len() <= 1 {
        ms[0]
    } else {
        let prev = newest(ms.drop_last());
        if opt_epoch_le(epoch_key(prev), epoch_key(ms.last())) {
            ms.last()
        } else {
            prev
        }
    }
}

/// The newest message governs: it is one of the list and no member is
/// dated after it.
pub proof fn lemma_newest_governs(ms: Seq<MessageV>)
    requires
        ms.len() > 0,
    ensures
        ms.contains(newest(ms)),
        forall|i: int|
            0 <= i < ms.len() ==> opt_epoch_le(epoch_key(#[trigger] ms[i]), epoch_key(newest(ms))),
    decreases ms.len(),
{
    if ms.len() == 1 {
        assert(ms[0] == newest(ms));
    } else {
        let d = ms.drop_last();
        lemma_newest_governs(d);
        let prev = newest(d);
        if opt_epoch_le(epoch_key(prev), epoch_key(ms.last())) {
            assert(newest(ms) == ms.last());
            assert(ms[ms.len() - 1] == ms.last());
            assert forall|i: int| 0 <= i < ms.len() implies opt_epoch_le(
                epoch_key(#[trigger] ms[i]),
                epoch_key(newest(ms)),
            ) by {
                if i < ms.len() - 1 {
                    assert(d[i] == ms[i]);
                }
            }
        } else {
            assert(newest(ms) == prev);
            let w = choose|w: int| 0 <= w < d.len() && d[w] == prev;
            assert(ms[w] == prev);
            assert forall|i: int| 0 <= i < ms.len() implies opt_epoch_le(
                epoch_key(#[trigger] ms[i]),
                epoch_key(newest(ms)),
            ) by {
                if i < ms.len() - 1 {
                    assert(d[i] == ms[i]);
                }
            }
        }
    }
}

/// Whether the whole conversation of `m` is expired at `now` under the
/// filter's time-to-live: its newest member governs.
pub open spec fn thread_expired_at(tm: ThreadMapV, f: crate::state_filter::StateFilterV, m: MessageV, now: int) -> bool {
    let mem = thread_members_of(tm, m);
    let nm = newest(mem);
    match rfc3339_epoch_of(nm.date) {
        Some(ts) => ttl_expired(f, nm, ts, now),
        None => false,
    }
}

impl ThreadProcessor {
    /// The index of the first thread holding this uid.
    fn find_group_by_uid(&self, uid: u32) -> (r: Option<usize>)
        ensures
            match r {
                Some(g) => group_idx_with_uid(self@, uid) == Some(g as int),
                None => group_idx_with_uid(self@, uid) is None,
            },
    {
        let n = self.thread_map.groups.len();
        let mut g: usize = 0;
        while g < n
            invariant
                n == self@.len(),
                g <= n,
                forall|t: int, j: int|
                    0 <= t < g && 0 <= j < self@[t].1.len() ==> (#[trigger] self@[t].1[j]).uid
                        != uid,
            decreases n - g,
        {
            let grp = &self.thread_map.groups[g];
            let m = grp.1.len();
            let mut j: usize = 0;
            while j < m
                invariant
                    n == self@.len(),
                    g < n,
                    m == self@[g as int].1.len(),
                    grp == &self.thread_map.groups[g as int],
                    j <= m,
                    forall|t: int, j2: int|
                        0 <= t < g && 0 <= j2 < self@[t].1.len()
                            ==> (#[trigger] self@[t].1[j2]).uid != uid,
                    forall|t: int| 0 <= t < j ==> (#[trigger] self@[g as int].1[t]).uid != uid,
                decreases m - j,
            {
                if grp.1[j].uid == uid {
                    proof {
                        assert((self@[g as int].1[j as int]).uid == uid);
                        lemma_group_idx_with_uid_at(self@, uid, g as int);
                    }
                    return Some(g);
                }
                j += 1;
            }
            g += 1;
        }
        proof {
            lemma_group_idx_with_uid_at(self@, uid, n as int);
        }
        None
    }

    /// The conversation the message is processed with, as a fresh list.
    pub fn members_for(&self, msg: &Message) -> (r: Vec<Message>)
        ensures
            r.deep_view() == thread_members_of(self@, msg@),
            r@.len() > 0,
    {
        match self.find_group_by_uid(msg.uid) {
            Some(g) => {
                proof {
                    lemma_group_idx_carries(self@, msg@.uid);
                    assert((g as int) < self@.len());
                    assert(self@.len() == self.thread_map.groups@.len());
                }
                let r = clone_message_vec(&self.thread_map.groups[g].1);
                proof {
                    lemma_group_idx_carries(self@, msg@.uid);
                    assert(r.deep_view().len() == self@[g as int].1.len());
                }
                r
            },
            None => {
                let mut r: Vec<Message> = Vec::new();
                r.push(msg.clone());
                proof {
                    assert(r.deep_view() =~= seq![msg@]);
                }
                r
            },
        }
    }

    /// Applies a content action across the whole conversation of `msg` —
    /// a content match on one message is treated as relevant to the whole
    /// conversation — and returns the messages acted upon, so the caller
    /// can remove them from its working set.
    pub fn process_thread_message_filter<C: IMAPClientOps>(
        &self,
        client: &mut C,
        msg: &Message,
        action: &crate::message_filter::FilterAction,
    ) -> (r: Result<Vec<Message>, ClientError>)
        ensures
            r matches Ok(p) ==> p.deep_view() == thread_members_of(self@, msg@) && p@.len() > 0,
    {
        let members = self.members_for(msg);
        let n = members.len();
        let mut j: usize = 0;
        while j < n
            invariant
                n == members@.len(),
            decreases n - j,
        {
            match crate::imap_filter::apply_message_action(client, &members[j], action) {
                Ok(()) => {},
                Err(e) => {
                    return Err(e);
                },
            }
            j += 1;
        }
        Ok(members)
    }

    /// Evaluates the filter's time-to-live against the newest member of the
    /// conversation of `msg` at the given instant; exactly when that member
    /// is expired, applies the action to every member — suppressed under
    /// the filter's dry-run flag — and returns the members acted upon.
    /// A conversation whose newest member's timestamp does not parse is
    /// skipped rather than acted upon.
    pub fn process_thread_state_filter_at<C: IMAPClientOps>(
        &self,
        client: &mut C,
        msg: &Message,
        filter: &StateFilter,
        action: &StateAction,
        now_secs: i64,
    ) -> (r: Result<Vec<Message>, ClientError>)
        ensures
            r matches Ok(p) ==> if thread_expired_at(self@, filter@, msg@, now_secs as int) {
                p.deep_view() == thread_members_of(self@, msg@) && p@.len() > 0
            } else {
                p@.len() == 0
            },
            !thread_expired_at(self@, filter@, msg@, now_secs as int) ==> r is Ok,
            filter@.nerf ==> r is Ok,
    {
        let members = self.members_for(msg);
        let n = members.len();
        // the newest member by timestamp governs the whole conversation
        let mut best: usize = 0;
        let mut best_key: Option<i64> = crate::state_filter::parse_rfc3339_secs(
            members[0].date.as_str(),
        );
        let mut j: usize = 1;
        proof {
            assert(members.deep_view().subrange(0, 1) =~= seq![members.deep_view()[0]]);
        }
        while j < n
            invariant
                n == members@.len(),
                n == members.deep_view().len(),
                n > 0,
                best < j <= n,
                members.deep_view()[best as int] == newest(
                    members.deep_view().subrange(0, j as int),
                ),
                best_key is Some <==> epoch_key(members.deep_view()[best as int]) is Some,
                best_key matches Some(v) ==> epoch_key(members.deep_view()[best as int]) == Some(
                    v as int,
                ),
            decreases n - j,
        {
            let ghost pre = members.deep_view().subrange(0, j as int);
            proof {
                let pre2 = members.deep_view().subrange(0, j as int + 1);
                assert(pre2.drop_last() =~= pre);
                assert(pre2.last() == members.deep_view()[j as int]);
            }
            let cand_key = crate::state_filter::parse_rfc3339_secs(members[j].date.as_str());
            let replace = match (best_key, cand_key) {
                (Option::None, _) => true,
                (Option::Some(_), Option::None) => false,
                (Option::Some(x), Option::Some(y)) => x <= y,
            };
            proof {
                assert(members[j as int]@ == members.deep_view()[j as int]);
                assert(replace == opt_epoch_le(
                    epoch_key(members.deep_view()[best as int]),
                    epoch_key(members.deep_view()[j as int]),
                ));
            }
            if replace {
                best = j;
                best_key = cand_key;
            }
            j += 1;
        }
        proof {
            assert(members.deep_view().subrange(0, n as int) =~= members.deep_view());
        }
        let expired = match filter.evaluate_ttl(&members[best], now_secs) {
            Ok(Some(_)) => true,
            Ok(None) => false,
            Err(_) => false,
        };
        proof {
            assert(members.deep_view()[best as int] == newest(members.deep_view()));
            assert(members[best as int]@ == members.deep_view()[best as int]);
            assert(expired == thread_expired_at(self@, filter@, msg@, now_secs as int));
        }
        if expired {
            if !filter.nerf {
                let mut k: usize = 0;
                while k < n
                    invariant
                        n == members@.len(),
                        thread_expired_at(self@, filter@, msg@, now_secs as int),
                        !filter@.nerf,
                    decreases n - k,
                {
                    match crate::imap_filter::apply_state_action(client, &members[k], action) {
                        Ok(()) => {},
                        Err(e) => {
                            return Err(e);
                        },
                    }
                    k += 1;
                }
            }
            Ok(members)
        } else {
            let empty: Vec<Message> = Vec::new();
            Ok(empty)
        }
    }

    /// As [`ThreadProcessor::process_thread_state_filter_at`], with the
    /// instant drawn from the injected clock.
    pub fn process_thread_state_filter_with_clock<C: IMAPClientOps, K: Clock>(
        &self,
        client: &mut C,
        msg: &Message,
        filter: &StateFilter,
        action: &StateAction,
        clock: &K,
    ) -> (r: Result<Vec<Message>, ClientError>)
        ensures
            r matches Ok(p) ==> (exists|now: int|
                if thread_expired_at(self@, filter@, msg@, now) {
                    p.deep_view() == thread_members_of(self@, msg@)
                } else {
                    p@.len() == 0
                }),
            filter@.nerf ==> r is Ok,
            (forall|now: int| !thread_expired_at(self@, filter@, msg@, now)) ==> r is Ok,
    {
        let now = clock.now();
        let r = self.process_thread_state_filter_at(client, msg, filter, action, now);
        proof {
            if r is Ok {
                assert(if thread_expired_at(self@, filter@, msg@, now as int) {
                    r->Ok_0.deep_view() == thread_members_of(self@, msg@)
                } else {
                    r->Ok_0@.len() == 0
                });
            }
        }
        r
    }

    /// As [`ThreadProcessor::process_thread_state_filter_at`], at the real
    /// clock's current instant.
    pub fn process_thread_state_filter<C: IMAPClientOps>(
        &self,
        client: &mut C,
        msg: &Message,
        filter: &StateFilter,
        action: &StateAction,
    ) -> (r: Result<Vec<Message>, ClientError>)
        ensures
            r matches Ok(p) ==> (exists|now: int|
                if thread_expired_at(self@, filter@, msg@, now) {
                    p.deep_view() == thread_members_of(self@, msg@)
                } else {
                    p@.len() == 0
                }),
            filter@.nerf ==> r is Ok,
            (forall|now: int| !thread_expired_at(self@, filter@, msg@, now)) ==> r is Ok,
    {
        let clock = RealClock;
        self.process_thread_state_filter_with_clock(client, msg, filter, action, &clock)
    }
}

/// Thread liveness: when the newest member of the conversation is younger
/// than the threshold, the conversation is not expired, however old its
/// other members are.
pub proof fn lemma_thread_liveness(
    tm: ThreadMapV,
    f: crate::state_filter::StateFilterV,
    m: MessageV,
    now: int,
    d: i64,
    ts: int,
)
    requires
        f.ttl == crate::state_filter::Ttl::Days(d),
        rfc3339_epoch_of(newest(thread_members_of(tm, m)).date) == Some(ts),
        now - ts < d * crate::state_filter::day_secs(),
    ensures
        !thread_expired_at(tm, f, m, now),
{
}

} // verus!
