//! The listing of scaling groups for operators.

use vstd::prelude::*;

use crate::infra::asg;
use crate::infra::asg::{AsgGroup, GroupView, InstanceView};
use crate::text;

verus! {

/// The line of an instance.
pub open spec fn instance_line(i: InstanceView) -> Seq<char> {
    "    "@ + text::pad_right(i.instance_id, 25) + " "@ + text::pad_right(i.health_status, 15) + " "@
        + text::pad_right(i.lifecycle_state, 14) + " "@ + i.availability_zone + "\n"@
}

/// The lines of instances.
pub open spec fn instance_lines(v: Seq<InstanceView>) -> Seq<char>
    decreases v.len(),
{
    if v.len() == 0 {
        Seq::empty()
    } else {
        instance_lines(v.drop_last()) + instance_line(v.last())
    }
}

/// The listing of a group.
pub open spec fn group_text(g: GroupView) -> Seq<char> {
    let head = "\nAuto Scaling Group: "@ + g.name + "\n  Capacity — desired: "@
        + text::signed_decimal(g.desired_capacity) + "  min: "@ + text::signed_decimal(g.min_size)
        + "  max: "@ + text::signed_decimal(g.max_size) + "\n  Instances ("@ + text::decimal(
        g.instances.len(),
    ) + "):\n"@;
    if g.instances.len() == 0 {
        head + "    (none)\n"@
    } else {
        head
            + "    Instance ID               Health          State          AZ\n    ------------------------------------------------------------------------\n"@
            + instance_lines(g.instances)
    }
}

/// The listings of groups.
pub open spec fn group_texts(v: Seq<GroupView>) -> Seq<char>
    decreases v.len(),
{
    if v.len() == 0 {
        Seq::empty()
    } else {
        group_texts(v.drop_last()) + group_text(v.last())
    }
}

fn write_group(out: &mut String, g: &AsgGroup)
    ensures
        final(out)@ == old(out)@ + group_text(g@),
{
    let n: usize = g.instances.len();
    let mut t = text::copy_str("\nAuto Scaling Group: ");
    t.push_str(g.name.as_str());
    t.push_str("\n  Capacity — desired: ");
    t.push_str(text::signed_decimal_of(g.desired_capacity).as_str());
    t.push_str("  min: ");
    t.push_str(text::signed_decimal_of(g.min_size).as_str());
    t.push_str("  max: ");
    t.push_str(text::signed_decimal_of(g.max_size).as_str());
    t.push_str("\n  Instances (");
    t.push_str(text::decimal_of(n as u64).as_str());
    t.push_str("):\n");
    if n == 0 {
        t.push_str("    (none)\n");
    } else {
        t.push_str(
            "    Instance ID               Health          State          AZ\n    ------------------------------------------------------------------------\n",
        );
        let ghost head = t@;
        let ghost all = asg::instance_views(g.instances@);
        let mut i: usize = 0;
        assert(all.take(0) =~= Seq::<InstanceView>::empty());
        assert(head + instance_lines(all.take(0)) =~= head);
        while i < n
            invariant
                i <= n,
                n == g.instances@.len(),
                all == asg::instance_views(g.instances@),
                t@ == head + instance_lines(all.take(i as int)),
            decreases n - i,
        {
            let x = &g.instances[i];
            proof {
                assert(all.take(i + 1).last() == x@);
                assert(all.take(i + 1).drop_last() =~= all.take(i as int));
            }
            let mut line = text::copy_str("    ");
            line.push_str(text::padded_right(x.instance_id.as_str(), 25).as_str());
            line.push_str(" ");
            line.push_str(text::padded_right(x.health_status.as_str(), 15).as_str());
            line.push_str(" ");
            line.push_str(text::padded_right(x.lifecycle_state.as_str(), 14).as_str());
            line.push_str(" ");
            line.push_str(x.availability_zone.as_str());
            line.push_str("\n");
            t.push_str(line.as_str());
            assert(t@ =~= head + (instance_lines(all.take(i as int)) + instance_line(x@)));
            i = i + 1;
        }
        assert(all.take(i as int) =~= all);
    }
    out.push_str(t.as_str());
}

/// The listing of scaling groups, or a note where there are none.
pub fn list_text(groups: &Vec<AsgGroup>) -> (out: String)
    ensures
        out@ == (if groups@.len() == 0 {
            "No auto scaling groups found (has the ASG been created in the console yet?)\n"@
        } else {
            group_texts(asg::group_views(groups@))
        }),
{
    if groups.len() == 0 {
        return text::copy_str(
            "No auto scaling groups found (has the ASG been created in the console yet?)\n",
        );
    }
    let ghost all = asg::group_views(groups@);
    let mut out: String = String::new();
    let mut i: usize = 0;
    assert(all.take(0) =~= Seq::<GroupView>::empty());
    assert(out@ =~= group_texts(all.take(0)));
    while i < groups.len()
        invariant
            i <= groups@.len(),
            all == asg::group_views(groups@),
            out@ == group_texts(all.take(i as int)),
        decreases groups@.len() - i,
    {
        proof {
            assert(all.take(i + 1).last() == groups@[i as int]@);
            assert(all.take(i + 1).drop_last() =~= all.take(i as int));
        }
        write_group(&mut out, &groups[i]);
        i = i + 1;
    }
    assert(all.take(i as int) =~= all);
    out
}

/// The lines of two lists of instances follow each other, each line once.
pub proof fn law_lines_follow_each_other(
    a: Seq<InstanceView>,
    b: Seq<InstanceView>,
    x: InstanceView,
)
    ensures
        instance_lines(a + b) == instance_lines(a) + instance_lines(b),
        instance_lines(seq![x]) == instance_line(x),
    decreases b.len(),
{
    reveal_with_fuel(instance_lines, 2);
    assert(seq![x].drop_last() =~= Seq::<InstanceView>::empty());
    assert(Seq::<char>::empty() + instance_line(x) =~= instance_line(x));
    if b.len() == 0 {
        assert(a + b =~= a);
        assert(instance_lines(a) + instance_lines(b) =~= instance_lines(a));
    } else {
        law_lines_follow_each_other(a, b.drop_last(), x);
        assert((a + b).drop_last() =~= a + b.drop_last());
        assert(instance_lines(a + b) =~= instance_lines(a) + instance_lines(b));
    }
}

/// The texts of two lists of groups follow each other, each group once.
pub proof fn law_groups_follow_each_other(a: Seq<GroupView>, b: Seq<GroupView>, x: GroupView)
    ensures
        group_texts(a + b) == group_texts(a) + group_texts(b),
        group_texts(seq![x]) == group_text(x),
    decreases b.len(),
{
    reveal_with_fuel(group_texts, 2);
    assert(seq![x].drop_last() =~= Seq::<GroupView>::empty());
    assert(Seq::<char>::empty() + group_text(x) =~= group_text(x));
    if b.len() == 0 {
        assert(a + b =~= a);
        assert(group_texts(a) + group_texts(b) =~= group_texts(a));
    } else {
        law_groups_follow_each_other(a, b.drop_last(), x);
        assert((a + b).drop_last() =~= a + b.drop_last());
        assert(group_texts(a + b) =~= group_texts(a) + group_texts(b));
    }
}

/// The line of an instance shows its id, its health, its lifecycle state and its
/// zone, in columns.
pub proof fn law_line_of_an_instance(i: InstanceView)
    ensures
        text::starts_with(
            instance_line(i),
            "    "@ + text::pad_right(i.instance_id, 25) + " "@ + text::pad_right(
                i.health_status,
                15,
            ),
        ),
        text::ends_with(
            instance_line(i),
            text::pad_right(i.lifecycle_state, 14) + " "@ + i.availability_zone + "\n"@,
        ),
{
    let line = instance_line(i);
    let head = "    "@ + text::pad_right(i.instance_id, 25) + " "@ + text::pad_right(
        i.health_status,
        15,
    );
    let tail = text::pad_right(i.lifecycle_state, 14) + " "@ + i.availability_zone + "\n"@;
    assert(line =~= head + (" "@ + tail));
    text::law_stripping_undoes_joining(line, head, " "@ + tail);
    assert(line =~= (head + " "@) + tail);
    text::law_stripping_undoes_joining(line, tail, head + " "@);
}

} // verus!
