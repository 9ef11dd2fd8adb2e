//! Auto Scaling Group requests and the description that comes back.

use vstd::prelude::*;

use crate::infra::xml;
use crate::text;

verus! {

/// A scaling group as the API describes it.
#[derive(Debug)]
pub struct AsgGroup {
    pub name: String,
    pub desired_capacity: i64,
    pub min_size: i64,
    pub max_size: i64,
    pub instances: Vec<AsgInstance>,
}

/// One instance of a scaling group.
#[derive(Debug)]
pub struct AsgInstance {
    pub instance_id: String,
    pub availability_zone: String,
    pub lifecycle_state: String,
    pub health_status: String,
}

/// An instance with the texts of its fields.
pub struct InstanceView {
    pub instance_id: Seq<char>,
    pub availability_zone: Seq<char>,
    pub lifecycle_state: Seq<char>,
    pub health_status: Seq<char>,
}

impl View for AsgInstance {
    type V = InstanceView;

    open spec fn view(&self) -> InstanceView {
        InstanceView {
            instance_id: self.instance_id@,
            availability_zone: self.availability_zone@,
            lifecycle_state: self.lifecycle_state@,
            health_status: self.health_status@,
        }
    }
}

/// The views of a list of instances.
pub open spec fn instance_views(v: Seq<AsgInstance>) -> Seq<InstanceView> {
    Seq::new(v.len(), |i: int| v[i]@)
}

/// A group with the texts of its fields.
pub struct GroupView {
    pub name: Seq<char>,
    pub desired_capacity: int,
    pub min_size: int,
    pub max_size: int,
    pub instances: Seq<InstanceView>,
}

impl View for AsgGroup {
    type V = GroupView;

    open spec fn view(&self) -> GroupView {
        GroupView {
            name: self.name@,
            desired_capacity: self.desired_capacity as int,
            min_size: self.min_size as int,
            max_size: self.max_size as int,
            instances: instance_views(self.instances@),
        }
    }
}

/// The views of a list of groups.
pub open spec fn group_views(v: Seq<AsgGroup>) -> Seq<GroupView> {
    Seq::new(v.len(), |i: int| v[i]@)
}

// ── Requests ──────────────────────────────────────────────────────────────

/// The views of request parameters.
pub open spec fn pairs(v: Seq<(String, String)>) -> Seq<(Seq<char>, Seq<char>)> {
    Seq::new(v.len(), |i: int| (v[i].0@, v[i].1@))
}

/// Appends a request parameter.
pub fn push_param(params: &mut Vec<(String, String)>, key: &str, value: &str)
    ensures
        pairs(final(params)@) == pairs(old(params)@).push((key@, value@)),
{
    let p: (String, String) = (text::copy_str(key), text::copy_str(value));
    params.push(p);
    assert(pairs(params@) =~= pairs(old(params)@).push((key@, value@)));
}

/// The host of the scaling API in a region.
pub fn asg_host(region: &str) -> (host: String)
    ensures
        host@ == "autoscaling."@ + region@ + ".amazonaws.com"@,
{
    let mut host = text::copy_str("autoscaling.");
    host.push_str(region);
    host.push_str(".amazonaws.com");
    host
}

/// The parameters of `DescribeAutoScalingGroups` for one group.
pub fn describe_params(asg_name: &str) -> (params: Vec<(String, String)>)
    ensures
        pairs(params@) == seq![
            ("Action"@, "DescribeAutoScalingGroups"@),
            ("Version"@, "2011-01-01"@),
            ("AutoScalingGroupNames.member.1"@, asg_name@),
        ],
{
    let mut params: Vec<(String, String)> = Vec::new();
    push_param(&mut params, "Action", "DescribeAutoScalingGroups");
    push_param(&mut params, "Version", "2011-01-01");
    push_param(&mut params, "AutoScalingGroupNames.member.1", asg_name);
    assert(pairs(params@) =~= seq![
        ("Action"@, "DescribeAutoScalingGroups"@),
        ("Version"@, "2011-01-01"@),
        ("AutoScalingGroupNames.member.1"@, asg_name@),
    ]);
    params
}

/// The parameters of `SetDesiredCapacity`.
pub fn set_desired_params(asg_name: &str, desired: u32) -> (params: Vec<(String, String)>)
    ensures
        pairs(params@) == seq![
            ("Action"@, "SetDesiredCapacity"@),
            ("Version"@, "2011-01-01"@),
            ("AutoScalingGroupName"@, asg_name@),
            ("DesiredCapacity"@, text::decimal(desired as nat)),
            ("HonorCooldown"@, "false"@),
        ],
{
    let count = text::decimal_of(desired as u64);
    let mut params: Vec<(String, String)> = Vec::new();
    push_param(&mut params, "Action", "SetDesiredCapacity");
    push_param(&mut params, "Version", "2011-01-01");
    push_param(&mut params, "AutoScalingGroupName", asg_name);
    push_param(&mut params, "DesiredCapacity", count.as_str());
    push_param(&mut params, "HonorCooldown", "false");
    assert(pairs(params@) =~= seq![
        ("Action"@, "SetDesiredCapacity"@),
        ("Version"@, "2011-01-01"@),
        ("AutoScalingGroupName"@, asg_name@),
        ("DesiredCapacity"@, text::decimal(desired as nat)),
        ("HonorCooldown"@, "false"@),
    ]);
    params
}

/// The parameters of `TerminateInstanceInAutoScalingGroup`. With `decrement`
/// the desired capacity goes down by one; without it the group launches a
/// replacement.
pub fn terminate_params(instance_id: &str, decrement: bool) -> (params: Vec<(String, String)>)
    ensures
        pairs(params@) == seq![
            ("Action"@, "TerminateInstanceInAutoScalingGroup"@),
            ("Version"@, "2011-01-01"@),
            ("InstanceId"@, instance_id@),
            (
                "ShouldDecrementDesiredCapacity"@,
                if decrement {
                    "true"@
                } else {
                    "false"@
                },
            ),
        ],
{
    let flag = if decrement {
        "true"
    } else {
        "false"
    };
    let mut params: Vec<(String, String)> = Vec::new();
    push_param(&mut params, "Action", "TerminateInstanceInAutoScalingGroup");
    push_param(&mut params, "Version", "2011-01-01");
    push_param(&mut params, "InstanceId", instance_id);
    push_param(&mut params, "ShouldDecrementDesiredCapacity", flag);
    assert(pairs(params@) =~= seq![
        ("Action"@, "TerminateInstanceInAutoScalingGroup"@),
        ("Version"@, "2011-01-01"@),
        ("InstanceId"@, instance_id@),
        (
            "ShouldDecrementDesiredCapacity"@,
            if decrement {
                "true"@
            } else {
                "false"@
            },
        ),
    ]);
    params
}

/// Whether the API confirmed `SetDesiredCapacity`.
pub fn set_desired_confirmed(xml: &str) -> (yes: bool)
    ensures
        yes == text::contains(xml@, "SetDesiredCapacityResponse"@),
{
    text::has(xml, "SetDesiredCapacityResponse")
}

/// Whether the API confirmed `TerminateInstanceInAutoScalingGroup`.
pub fn terminate_confirmed(xml: &str) -> (yes: bool)
    ensures
        yes == text::contains(xml@, "TerminateInstanceInAutoScalingGroupResponse"@),
{
    text::has(xml, "TerminateInstanceInAutoScalingGroupResponse")
}

// ── The description ───────────────────────────────────────────────────────

/// The contents of the outermost `<tag>` elements of `h`, in order.
pub open spec fn elements(h: Seq<char>, tag: Seq<char>) -> Seq<Seq<char>>
    decreases h.len(),
{
    match xml::balanced(h, tag) {
        Some(r) => if 0 <= r.0 <= r.1 && r.1 + xml::close_tag(tag).len() <= h.len() && r.1
            + xml::close_tag(tag).len() > 0 {
            seq![h.subrange(r.0, r.1)] + elements(
                h.skip(r.1 + xml::close_tag(tag).len()),
                tag,
            )
        } else {
            Seq::empty()
        },
        None => Seq::empty(),
    }
}

/// The contents of the outermost `<tag>` elements.
pub fn elements_of(h: &str, tag: &str) -> (out: Vec<String>)
    ensures
        text::texts(out@) == elements(h@, tag@),
{
    let mut out: Vec<String> = Vec::new();
    let mut rest = text::chars_of(h);
    assert(text::texts(out@) + elements(rest@, tag@) =~= elements(h@, tag@));
    loop
        invariant
            text::texts(out@) + elements(rest@, tag@) == elements(h@, tag@),
        decreases rest@.len(),
    {
        let ghost before = out@;
        match xml::balanced_bounds(&rest, tag) {
            None => {
                assert(text::texts(out@) + elements(rest@, tag@) =~= text::texts(out@));
                return out;
            },
            Some(b) => {
                proof {
                    xml::law_balanced_is_enclosed(rest@, tag@);
                    reveal_strlit("</");
                    assert(xml::close_tag(tag@).len() > 0);
                }
                let content = text::string_of(&rest, b.0, b.1);
                let n: usize = rest.len();
                proof {
                    reveal_strlit(">");
                    assert(xml::close_tag(tag@).len() == tag@.len() + 3);
                }
                let skip: usize = b.1 + 3 + tag.unicode_len();
                let next = text::string_of(&rest, skip, n);
                proof {
                    assert(next@ =~= rest@.skip(skip as int));
                    text::lemma_texts_push(before, content);
                    assert(text::texts(before).push(content@) + elements(next@, tag@)
                        =~= text::texts(before) + (seq![content@] + elements(next@, tag@)));
                }
                out.push(content);
                rest = text::chars_of(next.as_str());
            },
        }
    }
}

/// The text of a tag, or a default where the tag is not there.
pub open spec fn scalar_or(h: Seq<char>, tag: Seq<char>, default: Seq<char>) -> Seq<char> {
    match xml::scalar(h, tag) {
        Some(s) => s,
        None => default,
    }
}

/// The number in a tag, or 0 where there is none.
pub open spec fn number_or_zero(h: Seq<char>, tag: Seq<char>) -> int {
    match xml::scalar(h, tag) {
        Some(s) => match text::parse_int(s) {
            Some(v) => v,
            None => 0,
        },
        None => 0,
    }
}

/// The instance that a `<member>` of an instance list describes.
pub open spec fn instance_of(x: Seq<char>) -> InstanceView {
    InstanceView {
        instance_id: scalar_or(x, "InstanceId"@, "(unknown)"@),
        availability_zone: scalar_or(x, "AvailabilityZone"@, ""@),
        lifecycle_state: scalar_or(x, "LifecycleState"@, ""@),
        health_status: scalar_or(x, "HealthStatus"@, ""@),
    }
}

/// The instances in the `<Instances>` element of a group.
pub open spec fn instances_of(group: Seq<char>) -> Seq<InstanceView> {
    match xml::balanced(group, "Instances"@) {
        Some(r) => {
            let members = elements(group.subrange(r.0, r.1), "member"@);
            Seq::new(members.len(), |i: int| instance_of(members[i]))
        },
        None => Seq::empty(),
    }
}

/// The group that a `<member>` describes; `None` where it has no name.
pub open spec fn group_of(x: Seq<char>) -> Option<GroupView> {
    match xml::scalar(x, "AutoScalingGroupName"@) {
        Some(name) => Some(
            GroupView {
                name,
                desired_capacity: number_or_zero(x, "DesiredCapacity"@),
                min_size: number_or_zero(x, "MinSize"@),
                max_size: number_or_zero(x, "MaxSize"@),
                instances: instances_of(x),
            },
        ),
        None => None,
    }
}

/// The groups among a list of members.
pub open spec fn groups_of(members: Seq<Seq<char>>) -> Seq<GroupView>
    decreases members.len(),
{
    if members.len() == 0 {
        Seq::empty()
    } else {
        let rest = groups_of(members.drop_last());
        match group_of(members.last()) {
            Some(g) => rest.push(g),
            None => rest,
        }
    }
}

fn text_or(h: &str, tag: &str, default: &str) -> (s: String)
    ensures
        s@ == scalar_or(h@, tag@, default@),
{
    match xml::extract_scalar(h, tag) {
        Some(s) => text::copy_str(s),
        None => text::copy_str(default),
    }
}

fn number_of(h: &str, tag: &str) -> (n: i64)
    ensures
        n == number_or_zero(h@, tag@),
{
    match xml::extract_scalar(h, tag) {
        Some(s) => match text::parse_i64(s) {
            Some(v) => v,
            None => 0,
        },
        None => 0,
    }
}

fn parse_instances(group: &str) -> (out: Vec<AsgInstance>)
    ensures
        instance_views(out@) == instances_of(group@),
{
    let mut out: Vec<AsgInstance> = Vec::new();
    match xml::extract_balanced(group, "Instances") {
        None => {
            assert(instance_views(out@) =~= instances_of(group@));
            out
        },
        Some(block) => {
            let members = elements_of(block, "member");
            let ghost all = elements(block@, "member"@);
            let mut i: usize = 0;
            while i < members.len()
                invariant
                    i <= members@.len(),
                    all == text::texts(members@),
                    out@.len() == i,
                    forall|k: int| 0 <= k < i ==> (#[trigger] out@[k])@ == instance_of(all[k]),
                decreases members@.len() - i,
            {
                let m = members[i].as_str();
                assert(m@ == all[i as int]);
                out.push(
                    AsgInstance {
                        instance_id: text_or(m, "InstanceId", "(unknown)"),
                        availability_zone: text_or(m, "AvailabilityZone", ""),
                        lifecycle_state: text_or(m, "LifecycleState", ""),
                        health_status: text_or(m, "HealthStatus", ""),
                    },
                );
                i = i + 1;
            }
            assert(instance_views(out@) =~= instances_of(group@));
            out
        },
    }
}

/// The groups in the reply to `DescribeAutoScalingGroups`.
///
/// Members without a group name, such as lists of zones, are passed over.
/// Numbers that cannot be read are 0, a missing instance id is `(unknown)` and
/// other missing texts are empty.
pub fn parse_asg_describe(xml: &str) -> (groups: Vec<AsgGroup>)
    ensures
        group_views(groups@) == groups_of(elements(xml@, "member"@)),
{
    let members = elements_of(xml, "member");
    let ghost all = elements(xml@, "member"@);
    let mut groups: Vec<AsgGroup> = Vec::new();
    let mut i: usize = 0;
    assert(all.take(0) =~= Seq::<Seq<char>>::empty());
    assert(group_views(groups@) =~= groups_of(all.take(0)));
    while i < members.len()
        invariant
            i <= members@.len(),
            all == text::texts(members@),
            group_views(groups@) == groups_of(all.take(i as int)),
        decreases members@.len() - i,
    {
        let ghost before = groups@;
        let m = members[i].as_str();
        proof {
            assert(m@ == all[i as int]);
            assert(all.take(i + 1).drop_last() =~= all.take(i as int));
            assert(all.take(i + 1).last() == m@);
        }
        match xml::extract_scalar(m, "AutoScalingGroupName") {
            None => {},
            Some(name) => {
                let g = AsgGroup {
                    name: text::copy_str(name),
                    desired_capacity: number_of(m, "DesiredCapacity"),
                    min_size: number_of(m, "MinSize"),
                    max_size: number_of(m, "MaxSize"),
                    instances: parse_instances(m),
                };
                proof {
                    assert(Some(g@) == group_of(m@));
                    assert(group_views(before.push(g)) =~= group_views(before).push(g@));
                }
                groups.push(g);
            },
        }
        i = i + 1;
    }
    assert(all.take(i as int) =~= all);
    groups
}

/// The groups of two lists of members follow each other; a member with a name is a
/// group of that name, and one without is none.
pub proof fn law_groups_member_by_member(a: Seq<Seq<char>>, b: Seq<Seq<char>>, x: Seq<char>)
    ensures
        groups_of(a + b) == groups_of(a) + groups_of(b),
        ({
            let g = groups_of(seq![x]);
            match xml::scalar(x, "AutoScalingGroupName"@) {
                None => g.len() == 0,
                Some(name) => g.len() == 1 && g[0].name == name && g[0].instances == instances_of(x),
            }
        }),
    decreases b.len(),
{
    reveal_with_fuel(groups_of, 2);
    assert(seq![x].drop_last() =~= Seq::<Seq<char>>::empty());
    if b.len() == 0 {
        assert(a + b =~= a);
        assert(groups_of(a) + groups_of(b) =~= groups_of(a));
    } else {
        law_groups_member_by_member(a, b.drop_last(), x);
        assert((a + b).drop_last() =~= a + b.drop_last());
        assert(groups_of(a + b) =~= groups_of(a) + groups_of(b));
    }
}

/// The capacities of a group are the numbers in their tags, and 0 where a tag is
/// missing or holds none.
pub proof fn law_capacities_are_read(x: Seq<char>)
    requires
        xml::scalar(x, "AutoScalingGroupName"@) is Some,
    ensures
        group_of(x) is Some,
        ({
            let g = group_of(x)->0;
            let number = |tag: Seq<char>, n: int|
                match xml::scalar(x, tag) {
                    Some(s) => text::parse_int(s) == Some(n) || (text::parse_int(s) is None && n
                        == 0),
                    None => n == 0,
                };
            &&& number("DesiredCapacity"@, g.desired_capacity)
            &&& number("MinSize"@, g.min_size)
            &&& number("MaxSize"@, g.max_size)
        }),
{
}

/// Each instance of a group is one `<member>` of its list, in order, with the texts
/// of its tags.
pub proof fn law_instances_are_read(group: Seq<char>)
    ensures
        match xml::balanced(group, "Instances"@) {
            None => instances_of(group).len() == 0,
            Some(r) => {
                let m = elements(group.subrange(r.0, r.1), "member"@);
                &&& instances_of(group).len() == m.len()
                &&& forall|i: int|
                    #![trigger instances_of(group)[i]]
                    0 <= i < m.len() ==> {
                        let x = instances_of(group)[i];
                        let field = |tag: Seq<char>, default: Seq<char>, s: Seq<char>|
                            xml::scalar(m[i], tag) == Some(s) || (xml::scalar(m[i], tag) is None
                                && s == default);
                        &&& field("InstanceId"@, "(unknown)"@, x.instance_id)
                        &&& field("AvailabilityZone"@, ""@, x.availability_zone)
                        &&& field("LifecycleState"@, ""@, x.lifecycle_state)
                        &&& field("HealthStatus"@, ""@, x.health_status)
                    }
            },
        },
{
}

} // verus!
