//! The scaling group as the snapshot holds it.

use vstd::prelude::*;

use crate::infra::asg;
use crate::infra::asg::AsgGroup;
use crate::order;
use crate::scale::snapshot;
use crate::scale::snapshot::{AsgGroupInfo, AsgInstance, InstanceView};
use crate::text;

verus! {

/// What the snapshot keeps of an instance.
pub open spec fn kept(i: asg::InstanceView) -> InstanceView {
    InstanceView { id: i.instance_id, lifecycle: i.lifecycle_state, health: i.health_status }
}

/// The instances of all groups, in order.
pub open spec fn all_instances(groups: Seq<asg::GroupView>) -> Seq<InstanceView>
    decreases groups.len(),
{
    if groups.len() == 0 {
        Seq::empty()
    } else {
        let g = groups.last();
        all_instances(groups.drop_last()) + Seq::new(
            g.instances.len(),
            |i: int| kept(g.instances[i]),
        )
    }
}

/// The ids of a list of instances.
pub open spec fn ids(list: Seq<InstanceView>) -> Seq<Seq<char>> {
    Seq::new(list.len(), |i: int| list[i].id)
}

/// Whether `out` is `list` sorted by instance id.
pub open spec fn sorted_by_id(list: Seq<InstanceView>, out: Seq<InstanceView>) -> bool {
    exists|p: Seq<usize>|
        #[trigger] order::is_text_order(ids(list), p) && out == order::permuted(list, p)
}

fn collect_instances(groups: &Vec<AsgGroup>) -> (out: Vec<AsgInstance>)
    ensures
        snapshot::instance_views(out@) == all_instances(asg::group_views(groups@)),
{
    let ghost all = asg::group_views(groups@);
    let mut out: Vec<AsgInstance> = Vec::new();
    let mut i: usize = 0;
    assert(all.take(0) =~= Seq::<asg::GroupView>::empty());
    assert(snapshot::instance_views(out@) =~= all_instances(all.take(0)));
    while i < groups.len()
        invariant
            i <= groups@.len(),
            all == asg::group_views(groups@),
            snapshot::instance_views(out@) == all_instances(all.take(i as int)),
        decreases groups@.len() - i,
    {
        let ghost before = snapshot::instance_views(out@);
        let ghost g = all[i as int];
        let list = &groups[i].instances;
        assert(g.instances == asg::instance_views(list@));
        let mut j: usize = 0;
        assert(before + Seq::new(0, |k: int| kept(g.instances[k])) =~= before);
        while j < list.len()
            invariant
                j <= list@.len(),
                g.instances == asg::instance_views(list@),
                snapshot::instance_views(out@) == before + Seq::new(
                    j as nat,
                    |k: int| kept(g.instances[k]),
                ),
            decreases list@.len() - j,
        {
            let ghost was = out@;
            let inst = AsgInstance {
                instance_id: text::copy_str(list[j].instance_id.as_str()),
                lifecycle_state: text::copy_str(list[j].lifecycle_state.as_str()),
                health_status: text::copy_str(list[j].health_status.as_str()),
            };
            assert(inst@ == kept(g.instances[j as int]));
            out.push(inst);
            proof {
                assert(snapshot::instance_views(out@) =~= snapshot::instance_views(was).push(
                    inst@,
                ));
                assert(before + Seq::new((j + 1) as nat, |k: int| kept(g.instances[k])) =~= (before
                    + Seq::new(j as nat, |k: int| kept(g.instances[k]))).push(inst@));
            }
            j = j + 1;
        }
        proof {
            assert(all.take(i + 1).drop_last() =~= all.take(i as int));
            assert(all.take(i + 1).last() == g);
        }
        i = i + 1;
    }
    assert(all.take(i as int) =~= all);
    out
}

/// The capacity of the first group, if there is one, and the instances of all
/// groups sorted by id.
pub fn read_all(groups: &Vec<AsgGroup>) -> (r: (Option<AsgGroupInfo>, Vec<AsgInstance>))
    ensures
        match r.0 {
            Some(g) => groups@.len() > 0 && g.name@ == groups@[0].name@ && g.desired_capacity
                == groups@[0].desired_capacity && g.min_size == groups@[0].min_size && g.max_size
                == groups@[0].max_size,
            None => groups@.len() == 0,
        },
        sorted_by_id(
            all_instances(asg::group_views(groups@)),
            snapshot::instance_views(r.1@),
        ),
{
    let info: Option<AsgGroupInfo> = if groups.len() > 0 {
        Some(
            AsgGroupInfo {
                name: text::copy_str(groups[0].name.as_str()),
                desired_capacity: groups[0].desired_capacity,
                min_size: groups[0].min_size,
                max_size: groups[0].max_size,
            },
        )
    } else {
        None
    };
    let found = collect_instances(groups);
    let ghost list = snapshot::instance_views(found@);
    let mut keys: Vec<String> = Vec::new();
    let mut i: usize = 0;
    while i < found.len()
        invariant
            i <= found@.len(),
            list == snapshot::instance_views(found@),
            keys@.len() == i,
            forall|k: int| 0 <= k < i ==> (#[trigger] keys@[k])@ == list[k].id,
        decreases found@.len() - i,
    {
        keys.push(text::copy_str(found[i].instance_id.as_str()));
        i = i + 1;
    }
    assert(text::texts(keys@) =~= ids(list));
    let p = order::text_order(&keys);
    let mut out: Vec<AsgInstance> = Vec::new();
    let mut k: usize = 0;
    while k < p.len()
        invariant
            k <= p@.len(),
            list == snapshot::instance_views(found@),
            order::is_text_order(ids(list), p@),
            out@.len() == k,
            forall|j: int| 0 <= j < k ==> (#[trigger] out@[j])@ == list[p@[j] as int],
        decreases p@.len() - k,
    {
        assert(p@[k as int] < found@.len());
        out.push(found[p[k]].clone());
        k = k + 1;
    }
    assert(snapshot::instance_views(out@) =~= order::permuted(list, p@));
    (info, out)
}

/// The instances of two lists of groups follow each other, and those of one group
/// keep their order and all that is known of them but the zone.
pub proof fn law_instances_group_by_group(
    a: Seq<asg::GroupView>,
    b: Seq<asg::GroupView>,
    g: asg::GroupView,
)
    ensures
        all_instances(a + b) == all_instances(a) + all_instances(b),
        all_instances(seq![g]).len() == g.instances.len(),
        forall|i: int|
            #![trigger g.instances[i]]
            0 <= i < g.instances.len() ==> {
                &&& all_instances(seq![g])[i].id == g.instances[i].instance_id
                &&& all_instances(seq![g])[i].lifecycle == g.instances[i].lifecycle_state
                &&& all_instances(seq![g])[i].health == g.instances[i].health_status
            },
    decreases b.len(),
{
    reveal_with_fuel(all_instances, 2);
    assert(seq![g].drop_last() =~= Seq::<asg::GroupView>::empty());
    if b.len() == 0 {
        assert(a + b =~= a);
        assert(all_instances(a) + all_instances(b) =~= all_instances(a));
    } else {
        law_instances_group_by_group(a, b.drop_last(), g);
        assert((a + b).drop_last() =~= a + b.drop_last());
        assert(all_instances(a + b) =~= all_instances(a) + all_instances(b));
    }
}

/// A sorted list has all instances, and no id stands before a lesser one.
pub proof fn law_instances_are_sorted(list: Seq<InstanceView>, out: Seq<InstanceView>)
    requires
        sorted_by_id(list, out),
    ensures
        out.len() == list.len(),
        forall|k: int| 0 <= k < list.len() ==> out.contains(#[trigger] list[k]),
        forall|i: int, j: int|
            0 <= i < j < out.len() ==> order::text_less(
                (#[trigger] out[i]).id,
                (#[trigger] out[j]).id,
            ) || out[i].id == out[j].id,
{
    let p = choose|p: Seq<usize>|
        #[trigger] order::is_text_order(ids(list), p) && out == order::permuted(list, p);
    assert forall|k: int| 0 <= k < list.len() implies out.contains(#[trigger] list[k]) by {
        order::law_text_order_is_permutation(ids(list), p, k);
        let i = choose|i: int| 0 <= i < p.len() && p[i] == k;
        assert(out[i] == list[k]);
    }
    assert forall|i: int, j: int| 0 <= i < j < out.len() implies order::text_less(
        (#[trigger] out[i]).id,
        (#[trigger] out[j]).id,
    ) || out[i].id == out[j].id by {
        assert(order::text_before(ids(list), p[i] as int, p[j] as int));
    }
}

} // verus!
