//! Decision logic of the consumer loop: the stable id given to each
//! received message, and the partition assignments seeded from the
//! offset journal at subscription time. The broker subscription itself
//! is made by the loop around the library.
use vstd::prelude::*;
use vstd::string::StrSliceExecFns;
use crate::journal::OffsetKey;
use crate::strutil::{spec_i64_string, i64_to_string, i32_to_string, str_eq};

verus! {

/// The stable id of one consumed message:
/// `topic:partition@offset(timestamp)`.
pub open spec fn spec_message_id(
    topic: Seq<char>,
    partition: int,
    offset: int,
    timestamp_ms: int,
) -> Seq<char> {
    topic + seq![':'] + spec_i64_string(partition) + seq!['@'] + spec_i64_string(offset)
        + seq!['('] + spec_i64_string(timestamp_ms) + seq![')']
}

/// Builds the stable id of one consumed message. The timestamp is the
/// broker timestamp in milliseconds, or zero when the message has none.
pub fn message_id(topic: &str, partition: i32, offset: i64, timestamp_ms: i64) -> (r: String)
    ensures
        r@ == spec_message_id(topic@, partition as int, offset as int, timestamp_ms as int),
{
    let mut out = String::from_str(topic);
    out.append(":");
    let p = i32_to_string(partition);
    out.append(p.as_str());
    out.append("@");
    let o = i64_to_string(offset);
    out.append(o.as_str());
    out.append("(");
    let t = i64_to_string(timestamp_ms);
    out.append(t.as_str());
    out.append(")");
    proof {
        reveal_strlit(":");
        reveal_strlit("@");
        reveal_strlit("(");
        reveal_strlit(")");
        assert(out@ =~= spec_message_id(topic@, partition as int, offset as int,
            timestamp_ms as int));
    }
    out
}

/// One of the subscribed topics reads `t`.
pub open spec fn topic_known(topics: Seq<Seq<char>>, t: Seq<char>) -> bool {
    exists|i: int| 0 <= i < topics.len() && topics[i] == t
}

/// The journal entries whose topic is subscribed, in journal order:
/// these partitions are assigned with their stored offsets.
pub open spec fn assigned_list(
    offsets: Seq<((Seq<char>, int), int)>,
    topics: Seq<Seq<char>>,
) -> Seq<((Seq<char>, int), int)>
    decreases offsets.len(),
{
    if offsets.len() == 0 {
        Seq::empty()
    } else {
        let rest = assigned_list(offsets.drop_last(), topics);
        if topic_known(topics, offsets.last().0.0) {
            rest.push(offsets.last())
        } else {
            rest
        }
    }
}

/// Some assigned entry is for topic `t`.
pub open spec fn topic_assigned(assigned: Seq<((Seq<char>, int), int)>, t: Seq<char>) -> bool {
    exists|i: int| 0 <= i < assigned.len() && (#[trigger] assigned[i]).0.0 == t
}

/// The subscribed topics with no journaled offset, in subscription
/// order: these start at the library-default position.
pub open spec fn unassigned_list(
    assigned: Seq<((Seq<char>, int), int)>,
    topics: Seq<Seq<char>>,
) -> Seq<Seq<char>>
    decreases topics.len(),
{
    if topics.len() == 0 {
        Seq::empty()
    } else {
        let rest = unassigned_list(assigned, topics.drop_last());
        if topic_assigned(assigned, topics.last()) {
            rest
        } else {
            rest.push(topics.last())
        }
    }
}

/// View of a journal snapshot.
pub open spec fn snapshot_view(offsets: Seq<(OffsetKey, i64)>) -> Seq<((Seq<char>, int), int)> {
    offsets.map_values(|e: (OffsetKey, i64)| (e.0@, e.1 as int))
}

/// Is `t` one of the subscribed topics?
fn contains_topic(topics: &Vec<String>, t: &str) -> (r: bool)
    ensures
        r == topic_known(topics.deep_view(), t@),
{
    let n = topics.len();
    let mut i: usize = 0;
    while i < n
        invariant
            n == topics@.len(),
            topics.deep_view().len() == n,
            i <= n,
            forall|j: int| 0 <= j < n ==> #[trigger] topics.deep_view()[j] == topics@[j]@,
            forall|j: int| 0 <= j < i ==> topics@[j]@ != t@,
        decreases n - i,
    {
        if str_eq(topics[i].as_str(), t) {
            proof {
                assert(topics.deep_view()[i as int] == t@);
            }
            return true;
        }
        i = i + 1;
    }
    proof {
        if topic_known(topics.deep_view(), t@) {
            let j = choose|j: int| 0 <= j < topics.deep_view().len()
                && topics.deep_view()[j] == t@;
            assert(topics@[j]@ == t@);
        }
    }
    false
}

/// Does some assigned entry carry topic `t`?
fn contains_assigned_topic(assigned: &Vec<(OffsetKey, i64)>, t: &str) -> (r: bool)
    ensures
        r == topic_assigned(snapshot_view(assigned@), t@),
{
    let n = assigned.len();
    let mut i: usize = 0;
    while i < n
        invariant
            n == assigned@.len(),
            i <= n,
            forall|j: int| 0 <= j < i ==> (#[trigger] assigned@[j]).0.0@ != t@,
        decreases n - i,
    {
        if str_eq(assigned[i].0.0.as_str(), t) {
            proof {
                assert(snapshot_view(assigned@)[i as int].0.0 == t@);
            }
            return true;
        }
        i = i + 1;
    }
    proof {
        if topic_assigned(snapshot_view(assigned@), t@) {
            let j = choose|j: int| 0 <= j < snapshot_view(assigned@).len()
                && (#[trigger] snapshot_view(assigned@)[j]).0.0 == t@;
            assert(assigned@[j].0.0@ == t@);
        }
    }
    false
}

/// Builds the partition assignments for a subscription: every journal
/// entry whose topic is subscribed is assigned at its stored offset,
/// and every subscribed topic without one is left to the library
/// default starting position.
#[verifier::loop_isolation(false)]
pub fn build_assignments(offsets: Vec<(OffsetKey, i64)>, topics: &Vec<String>) -> (r: (
    Vec<(OffsetKey, i64)>,
    Vec<String>,
))
    ensures
        snapshot_view(r.0@) == assigned_list(snapshot_view(offsets@), topics.deep_view()),
        r.1.deep_view() == unassigned_list(snapshot_view(r.0@), topics.deep_view()),
{
    let mut assigned: Vec<(OffsetKey, i64)> = Vec::new();
    let n = offsets.len();
    let mut i: usize = 0;
    proof {
        assert(snapshot_view(offsets@.subrange(0, 0)) =~= Seq::empty());
        assert(assigned_list(Seq::empty(), topics.deep_view()) =~= Seq::empty());
        assert(snapshot_view(assigned@) =~= Seq::empty());
    }
    while i < n
        invariant
            n == offsets@.len(),
            i <= n,
            snapshot_view(assigned@) == assigned_list(
                snapshot_view(offsets@.subrange(0, i as int)), topics.deep_view()),
        decreases n - i,
    {
        proof {
            assert(snapshot_view(offsets@.subrange(0, i as int + 1)).drop_last()
                =~= snapshot_view(offsets@.subrange(0, i as int)));
            assert(snapshot_view(offsets@.subrange(0, i as int + 1)).last()
                == (offsets@[i as int].0@, offsets@[i as int].1 as int));
        }
        let keep = contains_topic(topics, offsets[i].0.0.as_str());
        if keep {
            let ghost before = assigned@;
            assigned.push((offsets[i].0.duplicate(), offsets[i].1));
            proof {
                assert(snapshot_view(assigned@)
                    =~= snapshot_view(before).push((offsets@[i as int].0@,
                        offsets@[i as int].1 as int)));
            }
        }
        i = i + 1;
    }
    proof {
        assert(offsets@.subrange(0, n as int) =~= offsets@);
    }
    let mut unassigned: Vec<String> = Vec::new();
    let m = topics.len();
    let mut j: usize = 0;
    proof {
        assert(topics.deep_view().subrange(0, 0) =~= Seq::empty());
        assert(unassigned_list(snapshot_view(assigned@), Seq::empty()) =~= Seq::empty());
        assert(unassigned.deep_view() =~= Seq::<Seq<char>>::empty());
    }
    while j < m
        invariant
            m == topics@.len(),
            topics.deep_view().len() == m,
            j <= m,
            forall|q: int| 0 <= q < m ==> #[trigger] topics.deep_view()[q] == topics@[q]@,
            unassigned.deep_view() == unassigned_list(snapshot_view(assigned@),
                topics.deep_view().subrange(0, j as int)),
        decreases m - j,
    {
        proof {
            assert(topics.deep_view().subrange(0, j as int + 1).drop_last()
                =~= topics.deep_view().subrange(0, j as int));
            assert(topics.deep_view().subrange(0, j as int + 1).last()
                == topics.deep_view()[j as int]);
        }
        let present = contains_assigned_topic(&assigned, topics[j].as_str());
        if !present {
            let ghost before = unassigned.deep_view();
            unassigned.push(topics[j].clone());
            proof {
                assert(unassigned.deep_view() =~= before.push(topics@[j as int]@));
            }
        }
        j = j + 1;
    }
    proof {
        assert(topics.deep_view().subrange(0, m as int) =~= topics.deep_view());
    }
    (assigned, unassigned)
}

} // verus!
