//! Network interfaces and secondary addresses of an instance: which requests to
//! make, and what the answers mean.

use vstd::prelude::*;

use crate::infra::asg;
use crate::infra::asg::{elements_of, push_param};
use crate::infra::aws;
use crate::infra::xml;
use crate::infra::xml::{extract_balanced, extract_scalar};
use crate::text;

verus! {

// ── Selecting an interface ────────────────────────────────────────────────

/// The ways to select an interface, of which the first that is given counts.
#[derive(Debug)]
pub struct SelectorArgs {
    pub eni_id: Option<String>,
    pub name: Option<String>,
    pub description: Option<String>,
    /// Tags in the form `key=value`.
    pub tag: Vec<String>,
}

/// How an interface is looked up.
#[derive(Debug)]
pub enum EniSelector {
    Id(String),
    Name(String),
    Description(String),
    /// All of these must match.
    Tags(Vec<(String, String)>),
}

/// A selector with its texts.
pub enum SelectorView {
    Id(Seq<char>),
    Name(Seq<char>),
    Description(Seq<char>),
    Tags(Seq<(Seq<char>, Seq<char>)>),
}

impl View for EniSelector {
    type V = SelectorView;

    open spec fn view(&self) -> SelectorView {
        match *self {
            EniSelector::Id(s) => SelectorView::Id(s@),
            EniSelector::Name(s) => SelectorView::Name(s@),
            EniSelector::Description(s) => SelectorView::Description(s@),
            EniSelector::Tags(t) => SelectorView::Tags(asg::pairs(t@)),
        }
    }
}

/// The first tag that is not `key=value`, from `i` on.
pub open spec fn bad_tag(tags: Seq<Seq<char>>, i: int) -> Option<int>
    decreases tags.len() - i,
{
    if i < 0 || i >= tags.len() {
        None
    } else if text::split_once(tags[i], '=') is None {
        Some(i)
    } else {
        bad_tag(tags, i + 1)
    }
}

/// The keys and values of tags.
pub open spec fn tag_pairs(tags: Seq<Seq<char>>) -> Seq<(Seq<char>, Seq<char>)> {
    Seq::new(tags.len(), |i: int| text::split_once(tags[i], '=')->0)
}

/// The selector that the arguments give, or what is wrong with them.
pub open spec fn selected(a: SelectorArgs) -> Result<SelectorView, Seq<char>> {
    if a.eni_id is Some {
        Ok(SelectorView::Id((a.eni_id->0)@))
    } else if a.name is Some {
        Ok(SelectorView::Name((a.name->0)@))
    } else if a.description is Some {
        Ok(SelectorView::Description((a.description->0)@))
    } else if a.tag@.len() > 0 {
        match bad_tag(text::texts(a.tag@), 0) {
            Some(i) => Err("--tag value '"@ + a.tag@[i]@ + "' is not in key=value format"@),
            None => Ok(SelectorView::Tags(tag_pairs(text::texts(a.tag@)))),
        }
    } else {
        Err("No ENI selector provided (use --eni-id, --name, --description, or --tag)"@)
    }
}

impl SelectorArgs {
    /// The selector that the arguments give.
    pub fn eni_selector(&self) -> (r: Result<EniSelector, String>)
        ensures
            match r {
                Ok(s) => selected(*self) == Ok::<SelectorView, Seq<char>>(s@),
                Err(e) => selected(*self) == Err::<SelectorView, Seq<char>>(e@),
            },
    {
        match &self.eni_id {
            Some(id) => {
                return Ok(EniSelector::Id(text::copy_str(id.as_str())));
            },
            None => {},
        }
        match &self.name {
            Some(name) => {
                return Ok(EniSelector::Name(text::copy_str(name.as_str())));
            },
            None => {},
        }
        match &self.description {
            Some(d) => {
                return Ok(EniSelector::Description(text::copy_str(d.as_str())));
            },
            None => {},
        }
        if self.tag.len() == 0 {
            return Err(
                text::copy_str(
                    "No ENI selector provided (use --eni-id, --name, --description, or --tag)",
                ),
            );
        }
        let ghost tags = text::texts(self.tag@);
        let mut out: Vec<(String, String)> = Vec::new();
        let mut i: usize = 0;
        while i < self.tag.len()
            invariant
                i <= self.tag@.len(),
                tags == text::texts(self.tag@),
                bad_tag(tags, 0) == bad_tag(tags, i as int),
                asg::pairs(out@) == tag_pairs(tags).take(i as int),
                self.tag@.len() > 0,
                self.eni_id is None,
                self.name is None,
                self.description is None,
            decreases self.tag@.len() - i,
        {
            let kv = self.tag[i].as_str();
            assert(tags[i as int] == kv@);
            match text::cut_once(kv, '=') {
                Some(pair) => {
                    push_param(&mut out, pair.0.as_str(), pair.1.as_str());
                    assert(asg::pairs(out@) =~= tag_pairs(tags).take(i + 1));
                },
                None => {
                    let mut e = text::copy_str("--tag value '");
                    e.push_str(kv);
                    e.push_str("' is not in key=value format");
                    return Err(e);
                },
            }
            i = i + 1;
        }
        assert(asg::pairs(out@) =~= tag_pairs(tags));
        Ok(EniSelector::Tags(out))
    }
}

// ── Requests ──────────────────────────────────────────────────────────────

/// The version of the API.
pub const EC2_VERSION: &'static str = "2016-11-15";

/// The host of the API in a region.
pub fn ec2_host(region: &str) -> (host: String)
    ensures
        host@ == "ec2."@ + region@ + ".amazonaws.com"@,
{
    let mut host = text::copy_str("ec2.");
    host.push_str(region);
    host.push_str(".amazonaws.com");
    host
}

/// The filters that a selector stands for: names and values.
pub open spec fn selector_filters(s: SelectorView) -> Seq<(Seq<char>, Seq<char>)> {
    match s {
        SelectorView::Id(id) => Seq::empty(),
        SelectorView::Name(name) => seq![("tag:Name"@, name)],
        SelectorView::Description(d) => seq![("description"@, d)],
        SelectorView::Tags(t) => Seq::new(t.len(), |i: int| ("tag:"@ + t[i].0, t[i].1)),
    }
}

/// The filters of a lookup: those of the selector, and one for the status.
pub open spec fn lookup_filters(s: SelectorView, status: Option<Seq<char>>) -> Seq<
    (Seq<char>, Seq<char>),
> {
    match status {
        Some(st) => selector_filters(s).push(("status"@, st)),
        None => selector_filters(s),
    }
}

/// The parameters of filters, which are numbered from 1.
pub open spec fn filter_params(f: Seq<(Seq<char>, Seq<char>)>) -> Seq<(Seq<char>, Seq<char>)>
    decreases f.len(),
{
    if f.len() == 0 {
        Seq::empty()
    } else {
        filter_params(f.drop_last()).push(
            ("Filter."@ + text::decimal(f.len()) + ".Name"@, f.last().0),
        ).push(("Filter."@ + text::decimal(f.len()) + ".Value.1"@, f.last().1))
    }
}

/// The parameters of `DescribeNetworkInterfaces`.
pub open spec fn describe_pairs(s: SelectorView, status: Option<Seq<char>>) -> Seq<
    (Seq<char>, Seq<char>),
> {
    let base = seq![("Action"@, "DescribeNetworkInterfaces"@), ("Version"@, EC2_VERSION@)];
    let head = match s {
        SelectorView::Id(id) => base.push(("NetworkInterfaceId.1"@, id)),
        _ => base,
    };
    head + filter_params(lookup_filters(s, status))
}

fn action(name: &str) -> (params: Vec<(String, String)>)
    ensures
        asg::pairs(params@) == seq![("Action"@, name@), ("Version"@, EC2_VERSION@)],
{
    let mut params: Vec<(String, String)> = Vec::new();
    push_param(&mut params, "Action", name);
    push_param(&mut params, "Version", EC2_VERSION);
    assert(asg::pairs(params@) =~= seq![("Action"@, name@), ("Version"@, EC2_VERSION@)]);
    params
}

fn filters_of(s: &EniSelector) -> (f: Vec<(String, String)>)
    ensures
        asg::pairs(f@) == selector_filters(s@),
{
    let mut f: Vec<(String, String)> = Vec::new();
    match s {
        EniSelector::Id(_) => {
            assert(asg::pairs(f@) =~= selector_filters(s@));
        },
        EniSelector::Name(name) => {
            push_param(&mut f, "tag:Name", name.as_str());
            assert(asg::pairs(f@) =~= selector_filters(s@));
        },
        EniSelector::Description(d) => {
            push_param(&mut f, "description", d.as_str());
            assert(asg::pairs(f@) =~= selector_filters(s@));
        },
        EniSelector::Tags(tags) => {
            let ghost all = selector_filters(s@);
            let mut i: usize = 0;
            while i < tags.len()
                invariant
                    i <= tags@.len(),
                    s@ == SelectorView::Tags(asg::pairs(tags@)),
                    all == selector_filters(s@),
                    asg::pairs(f@) == all.take(i as int),
                decreases tags@.len() - i,
            {
                let pair = &tags[i];
                let mut key = text::copy_str("tag:");
                key.push_str(pair.0.as_str());
                assert(asg::pairs(tags@)[i as int] == (pair.0@, pair.1@));
                push_param(&mut f, key.as_str(), pair.1.as_str());
                assert(asg::pairs(f@) =~= all.take(i + 1));
                i = i + 1;
            }
            assert(asg::pairs(f@) =~= all);
        },
    }
    f
}

/// The parameters of `DescribeNetworkInterfaces` for a selector, and for a
/// status where one is asked for.
pub fn describe_eni_params(s: &EniSelector, status: Option<&str>) -> (params: Vec<(String, String)>)
    ensures
        asg::pairs(params@) == describe_pairs(s@, aws::opt_str(status)),
{
    let mut params = action("DescribeNetworkInterfaces");
    match s {
        EniSelector::Id(id) => {
            push_param(&mut params, "NetworkInterfaceId.1", id.as_str());
        },
        _ => {},
    }
    let ghost head = asg::pairs(params@);
    let mut f = filters_of(s);
    match status {
        Some(st) => {
            push_param(&mut f, "status", st);
        },
        None => {},
    }
    let ghost all = asg::pairs(f@);
    let n: usize = f.len();
    let mut i: usize = 0;
    assert(all.take(0) =~= Seq::<(Seq<char>, Seq<char>)>::empty());
    assert(head + filter_params(all.take(0)) =~= head);
    while i < n
        invariant
            i <= n,
            n == f@.len(),
            all == asg::pairs(f@),
            asg::pairs(params@) == head + filter_params(all.take(i as int)),
        decreases n - i,
    {
        let pair = &f[i];
        let number = text::decimal_of(i as u64 + 1);
        let mut name = text::copy_str("Filter.");
        name.push_str(number.as_str());
        name.push_str(".Name");
        let mut value = text::copy_str("Filter.");
        value.push_str(number.as_str());
        value.push_str(".Value.1");
        proof {
            let t = all.take(i + 1);
            assert(t.last() == (pair.0@, pair.1@));
            assert(t.drop_last() =~= all.take(i as int));
        }
        let ghost front = filter_params(all.take(i as int));
        push_param(&mut params, name.as_str(), pair.0.as_str());
        push_param(&mut params, value.as_str(), pair.1.as_str());
        assert(asg::pairs(params@) =~= head + front.push((name@, pair.0@)).push((value@, pair.1@)));
        i = i + 1;
    }
    assert(all.take(i as int) =~= all);
    params
}

/// The parameters of `AttachNetworkInterface`.
pub fn attach_params(eni_id: &str, instance_id: &str, device_index: u32) -> (params: Vec<
    (String, String),
>)
    ensures
        asg::pairs(params@) == seq![
            ("Action"@, "AttachNetworkInterface"@),
            ("Version"@, EC2_VERSION@),
            ("NetworkInterfaceId"@, eni_id@),
            ("InstanceId"@, instance_id@),
            ("DeviceIndex"@, text::decimal(device_index as nat)),
        ],
{
    let mut params = action("AttachNetworkInterface");
    push_param(&mut params, "NetworkInterfaceId", eni_id);
    push_param(&mut params, "InstanceId", instance_id);
    push_param(&mut params, "DeviceIndex", text::decimal_of(device_index as u64).as_str());
    assert(asg::pairs(params@) =~= seq![
        ("Action"@, "AttachNetworkInterface"@),
        ("Version"@, EC2_VERSION@),
        ("NetworkInterfaceId"@, eni_id@),
        ("InstanceId"@, instance_id@),
        ("DeviceIndex"@, text::decimal(device_index as nat)),
    ]);
    params
}

/// A truth value as the API writes it.
pub open spec fn flag(b: bool) -> Seq<char> {
    if b {
        "true"@
    } else {
        "false"@
    }
}

fn flag_of(b: bool) -> (s: &'static str)
    ensures
        s@ == flag(b),
{
    if b {
        "true"
    } else {
        "false"
    }
}

/// The parameters of `DetachNetworkInterface`.
pub fn detach_params(attachment_id: &str, force: bool) -> (params: Vec<(String, String)>)
    ensures
        asg::pairs(params@) == seq![
            ("Action"@, "DetachNetworkInterface"@),
            ("Version"@, EC2_VERSION@),
            ("AttachmentId"@, attachment_id@),
            ("Force"@, flag(force)),
        ],
{
    let mut params = action("DetachNetworkInterface");
    push_param(&mut params, "AttachmentId", attachment_id);
    push_param(&mut params, "Force", flag_of(force));
    assert(asg::pairs(params@) =~= seq![
        ("Action"@, "DetachNetworkInterface"@),
        ("Version"@, EC2_VERSION@),
        ("AttachmentId"@, attachment_id@),
        ("Force"@, flag(force)),
    ]);
    params
}

/// The parameters of `AssignPrivateIpAddresses`. With `allow_reassignment` the
/// address is taken from whoever holds it.
pub fn assign_params(eni_id: &str, ip: &str, allow_reassignment: bool) -> (params: Vec<
    (String, String),
>)
    ensures
        asg::pairs(params@) == seq![
            ("Action"@, "AssignPrivateIpAddresses"@),
            ("Version"@, EC2_VERSION@),
            ("NetworkInterfaceId"@, eni_id@),
            ("PrivateIpAddress.1"@, ip@),
            ("AllowReassignment"@, flag(allow_reassignment)),
        ],
{
    let mut params = action("AssignPrivateIpAddresses");
    push_param(&mut params, "NetworkInterfaceId", eni_id);
    push_param(&mut params, "PrivateIpAddress.1", ip);
    push_param(&mut params, "AllowReassignment", flag_of(allow_reassignment));
    assert(asg::pairs(params@) =~= seq![
        ("Action"@, "AssignPrivateIpAddresses"@),
        ("Version"@, EC2_VERSION@),
        ("NetworkInterfaceId"@, eni_id@),
        ("PrivateIpAddress.1"@, ip@),
        ("AllowReassignment"@, flag(allow_reassignment)),
    ]);
    params
}

/// The parameters of `UnassignPrivateIpAddresses`.
pub fn unassign_params(eni_id: &str, ip: &str) -> (params: Vec<(String, String)>)
    ensures
        asg::pairs(params@) == seq![
            ("Action"@, "UnassignPrivateIpAddresses"@),
            ("Version"@, EC2_VERSION@),
            ("NetworkInterfaceId"@, eni_id@),
            ("PrivateIpAddress.1"@, ip@),
        ],
{
    let mut params = action("UnassignPrivateIpAddresses");
    push_param(&mut params, "NetworkInterfaceId", eni_id);
    push_param(&mut params, "PrivateIpAddress.1", ip);
    assert(asg::pairs(params@) =~= seq![
        ("Action"@, "UnassignPrivateIpAddresses"@),
        ("Version"@, EC2_VERSION@),
        ("NetworkInterfaceId"@, eni_id@),
        ("PrivateIpAddress.1"@, ip@),
    ]);
    params
}

/// The metadata path of the id of an interface.
pub fn interface_id_path(mac: &str) -> (path: String)
    ensures
        path@ == "network/interfaces/macs/"@ + mac@ + "/interface-id"@,
{
    let mut path = text::copy_str("network/interfaces/macs/");
    path.push_str(mac);
    path.push_str("/interface-id");
    path
}

// ── Answers ───────────────────────────────────────────────────────────────

/// Why an answer does not confirm an action, in words.
pub open spec fn unconfirmed(action: Seq<char>, xml: Seq<char>) -> Option<Seq<char>> {
    match xml::scalar(xml, "return"@) {
        Some(v) => if v == "true"@ {
            None
        } else {
            Some(action + " returned unexpected value: "@ + v)
        },
        None => Some("Could not parse "@ + action + " response:\n"@ + xml),
    }
}

/// Whether an answer confirms an action.
pub fn confirm(action: &str, xml: &str) -> (r: Result<(), String>)
    ensures
        match r {
            Ok(_) => unconfirmed(action@, xml@) is None,
            Err(e) => unconfirmed(action@, xml@) == Some(e@),
        },
{
    match extract_scalar(xml, "return") {
        Some(v) => if text::str_eq(v, "true") {
            Ok(())
        } else {
            let mut e = text::copy_str(action);
            e.push_str(" returned unexpected value: ");
            e.push_str(v);
            Err(e)
        },
        None => {
            let mut e = text::copy_str("Could not parse ");
            e.push_str(action);
            e.push_str(" response:\n");
            e.push_str(xml);
            Err(e)
        },
    }
}

/// The new attachment in an answer to `AttachNetworkInterface`.
pub fn attachment_of(xml: &str) -> (r: Result<String, String>)
    ensures
        match r {
            Ok(id) => xml::scalar(xml@, "attachmentId"@) == Some(id@),
            Err(e) => xml::scalar(xml@, "attachmentId"@) is None && e@
                == "Could not extract attachmentId from AttachNetworkInterface response"@,
        },
{
    match extract_scalar(xml, "attachmentId") {
        Some(id) => Ok(text::copy_str(id)),
        None => Err(
            text::copy_str("Could not extract attachmentId from AttachNetworkInterface response"),
        ),
    }
}

/// How many interfaces an answer describes: the outermost items of the set.
/// Items inside them, such as tags or groups, do not count.
pub open spec fn item_count(xml: Seq<char>) -> nat {
    match xml::balanced(xml, "networkInterfaceSet"@) {
        Some(r) => asg::elements(xml.subrange(r.0, r.1), "item"@).len(),
        None => 0,
    }
}

/// How many interfaces an answer describes.
pub fn count_items(xml: &str) -> (n: usize)
    ensures
        n == item_count(xml@),
{
    match extract_balanced(xml, "networkInterfaceSet") {
        Some(set) => {
            let items = elements_of(set, "item");
            assert(text::texts(items@).len() == items@.len());
            items.len()
        },
        None => 0,
    }
}

/// The first item of an answer.
pub open spec fn first_item(xml: Seq<char>) -> Option<Seq<char>> {
    match xml::balanced(xml, "item"@) {
        Some(r) => Some(xml.subrange(r.0, r.1)),
        None => None,
    }
}

/// The attachment that an item describes.
pub open spec fn item_attachment(item: Seq<char>) -> Option<Seq<char>> {
    match xml::balanced(item, "attachment"@) {
        Some(r) => xml::scalar(item.subrange(r.0, r.1), "attachmentId"@),
        None => None,
    }
}

fn attachment_in(item: &str) -> (r: Option<String>)
    ensures
        text::opt_text(r) == item_attachment(item@),
{
    match extract_balanced(item, "attachment") {
        Some(a) => match extract_scalar(a, "attachmentId") {
            Some(id) => Some(text::copy_str(id)),
            None => None,
        },
        None => None,
    }
}

/// An interface that was looked up.
#[derive(Debug)]
pub struct FoundEni {
    pub eni_id: String,
    pub private_ip: Option<String>,
}

/// Why an answer gives no interface to attach, in words.
pub open spec fn resolve_error(xml: Seq<char>, status: Option<Seq<char>>) -> Option<Seq<char>> {
    let hint = match status {
        Some(s) => " with status '"@ + s + "'"@,
        None => Seq::empty(),
    };
    match first_item(xml) {
        None => Some(
            "No ENI found matching the given selector"@ + hint
                + ". Check the ENI exists and the selector / region are correct."@,
        ),
        Some(item) => if item_count(xml) > 1 {
            Some(
                "More than one ENI matches the given selector. Use --eni-id for an unambiguous match."@,
            )
        } else if xml::scalar(item, "networkInterfaceId"@) is None {
            Some("Could not extract networkInterfaceId"@)
        } else {
            None
        },
    }
}

/// The interface that an answer describes. It is an error where there is none,
/// or more than one.
pub fn resolve_eni(xml: &str, status: Option<&str>) -> (r: Result<FoundEni, String>)
    ensures
        match r {
            Ok(f) => {
                &&& resolve_error(xml@, aws::opt_str(status)) is None
                &&& xml::scalar(first_item(xml@)->0, "networkInterfaceId"@) == Some(f.eni_id@)
                &&& text::opt_text(f.private_ip) == xml::scalar(
                    first_item(xml@)->0,
                    "privateIpAddress"@,
                )
            },
            Err(e) => resolve_error(xml@, aws::opt_str(status)) == Some(e@),
        },
{
    match extract_balanced(xml, "item") {
        None => {
            let mut hint = String::new();
            match status {
                Some(s) => {
                    hint = text::copy_str(" with status '");
                    hint.push_str(s);
                    hint.push_str("'");
                },
                None => {
                    assert(hint@ =~= Seq::empty());
                },
            }
            let mut e = text::copy_str("No ENI found matching the given selector");
            e.push_str(hint.as_str());
            e.push_str(". Check the ENI exists and the selector / region are correct.");
            Err(e)
        },
        Some(item) => {
            if count_items(xml) > 1 {
                return Err(
                    text::copy_str(
                        "More than one ENI matches the given selector. Use --eni-id for an unambiguous match.",
                    ),
                );
            }
            match extract_scalar(item, "networkInterfaceId") {
                None => Err(text::copy_str("Could not extract networkInterfaceId")),
                Some(id) => Ok(
                    FoundEni {
                        eni_id: text::copy_str(id),
                        private_ip: match extract_scalar(item, "privateIpAddress") {
                            Some(ip) => Some(text::copy_str(ip)),
                            None => None,
                        },
                    },
                ),
            }
        },
    }
}

/// An interface that is attached.
#[derive(Debug)]
pub struct AttachedEni {
    pub eni_id: String,
    pub attachment_id: String,
    /// More interfaces match; this is the first.
    pub ambiguous: bool,
}

/// Why an answer gives no interface to detach, in words.
pub open spec fn detach_error(xml: Seq<char>) -> Option<Seq<char>> {
    match first_item(xml) {
        None => Some(
            "No in-use ENI found matching the given selector. Is it actually attached? Check the selector and region."@,
        ),
        Some(item) => match xml::scalar(item, "networkInterfaceId"@) {
            None => Some("Could not extract networkInterfaceId"@),
            Some(id) => if item_attachment(item) is None {
                Some(
                    "ENI "@ + id + " has no attachment block — is it actually attached?"@,
                )
            } else {
                None
            },
        },
    }
}

/// The interface to detach that an answer describes, with its attachment.
pub fn resolve_eni_for_detach(xml: &str) -> (r: Result<AttachedEni, String>)
    ensures
        match r {
            Ok(a) => {
                &&& detach_error(xml@) is None
                &&& xml::scalar(first_item(xml@)->0, "networkInterfaceId"@) == Some(a.eni_id@)
                &&& item_attachment(first_item(xml@)->0) == Some(a.attachment_id@)
                &&& a.ambiguous == (item_count(xml@) > 1)
            },
            Err(e) => detach_error(xml@) == Some(e@),
        },
{
    match extract_balanced(xml, "item") {
        None => Err(
            text::copy_str(
                "No in-use ENI found matching the given selector. Is it actually attached? Check the selector and region.",
            ),
        ),
        Some(item) => match extract_scalar(item, "networkInterfaceId") {
            None => Err(text::copy_str("Could not extract networkInterfaceId")),
            Some(id) => match attachment_in(item) {
                Some(attachment_id) => Ok(
                    AttachedEni {
                        eni_id: text::copy_str(id),
                        attachment_id,
                        ambiguous: count_items(xml) > 1,
                    },
                ),
                None => {
                    let mut e = text::copy_str("ENI ");
                    e.push_str(id);
                    e.push_str(" has no attachment block — is it actually attached?");
                    Err(e)
                },
            },
        },
    }
}

/// How to take an interface over.
#[derive(Debug)]
pub struct Takeover {
    pub eni_id: String,
    pub status: String,
    /// More interfaces match; this is the first.
    pub ambiguous: bool,
    /// The attachment to detach by force, and to wait for, before attaching;
    /// `None` where the interface is available.
    pub detach: Option<String>,
}

/// Why an answer gives no interface to take over, in words.
pub open spec fn takeover_error(xml: Seq<char>) -> Option<Seq<char>> {
    match first_item(xml) {
        None => Some(
            "No ENI found matching the given selector. Check the selector and region."@,
        ),
        Some(item) => match xml::scalar(item, "networkInterfaceId"@) {
            None => Some("Could not extract networkInterfaceId"@),
            Some(id) => match xml::scalar(item, "status"@) {
                None => Some("Could not extract ENI status"@),
                Some(status) => if status == "in-use"@ {
                    if item_attachment(item) is None {
                        Some("ENI is in-use but has no attachment block — cannot detach"@)
                    } else {
                        None
                    }
                } else if status == "available"@ {
                    None
                } else {
                    Some(
                        "ENI "@ + id + " has unexpected status '"@ + status
                            + "'; expected 'in-use' or 'available'."@,
                    )
                },
            },
        },
    }
}

/// Decides how to take over the interface that an answer describes: one that is
/// in use is detached from its holder first.
pub fn plan_takeover(xml: &str) -> (r: Result<Takeover, String>)
    ensures
        match r {
            Ok(t) => {
                &&& takeover_error(xml@) is None
                &&& xml::scalar(first_item(xml@)->0, "networkInterfaceId"@) == Some(t.eni_id@)
                &&& xml::scalar(first_item(xml@)->0, "status"@) == Some(t.status@)
                &&& t.ambiguous == (item_count(xml@) > 1)
                &&& text::opt_text(t.detach) == (if t.status@ == "in-use"@ {
                    item_attachment(first_item(xml@)->0)
                } else {
                    None
                })
            },
            Err(e) => takeover_error(xml@) == Some(e@),
        },
{
    match extract_balanced(xml, "item") {
        None => Err(
            text::copy_str(
                "No ENI found matching the given selector. Check the selector and region.",
            ),
        ),
        Some(item) => match extract_scalar(item, "networkInterfaceId") {
            None => Err(text::copy_str("Could not extract networkInterfaceId")),
            Some(id) => match extract_scalar(item, "status") {
                None => Err(text::copy_str("Could not extract ENI status")),
                Some(status) => {
                    let ambiguous: bool = count_items(xml) > 1;
                    if text::str_eq(status, "in-use") {
                        match attachment_in(item) {
                            Some(a) => Ok(
                                Takeover {
                                    eni_id: text::copy_str(id),
                                    status: text::copy_str(status),
                                    ambiguous,
                                    detach: Some(a),
                                },
                            ),
                            None => Err(
                                text::copy_str(
                                    "ENI is in-use but has no attachment block — cannot detach",
                                ),
                            ),
                        }
                    } else if text::str_eq(status, "available") {
                        Ok(
                            Takeover {
                                eni_id: text::copy_str(id),
                                status: text::copy_str(status),
                                ambiguous,
                                detach: None,
                            },
                        )
                    } else {
                        let mut e = text::copy_str("ENI ");
                        e.push_str(id);
                        e.push_str(" has unexpected status '");
                        e.push_str(status);
                        e.push_str("'; expected 'in-use' or 'available'.");
                        Err(e)
                    }
                },
            },
        },
    }
}

/// The pause between two looks at a detaching interface, in milliseconds.
pub const POLL_INTERVAL_MS: u64 = 2_000;

/// What to do after a look at a detaching interface.
#[derive(Debug)]
pub enum PollStep {
    /// The interface can be attached.
    Available,
    /// Look again after the pause.
    Again,
    /// Give up, for this reason.
    TimedOut { message: String },
}

/// The status that an answer shows.
pub open spec fn shown_status(xml: Seq<char>) -> Option<Seq<char>> {
    match first_item(xml) {
        Some(item) => xml::scalar(item, "status"@),
        None => None,
    }
}

/// Decides after a look at a detaching interface, where `expired` says whether
/// the time is over.
pub fn poll_step(xml: &str, expired: bool, eni_id: &str, timeout_secs: u64) -> (step: PollStep)
    ensures
        if shown_status(xml@) == Some("available"@) {
            step is Available
        } else if expired {
            step matches PollStep::TimedOut { message } && message@ == "Timed out after "@
                + text::decimal(timeout_secs as nat) + " s waiting for "@ + eni_id@
                + " to become available. Check the AWS console and retry."@
        } else {
            step is Again
        },
{
    match extract_balanced(xml, "item") {
        Some(item) => match extract_scalar(item, "status") {
            Some(status) => {
                if text::str_eq(status, "available") {
                    return PollStep::Available;
                }
            },
            None => {},
        },
        None => {},
    }
    if expired {
        let mut message = text::copy_str("Timed out after ");
        message.push_str(text::decimal_of(timeout_secs).as_str());
        message.push_str(" s waiting for ");
        message.push_str(eni_id);
        message.push_str(" to become available. Check the AWS console and retry.");
        return PollStep::TimedOut { message };
    }
    PollStep::Again
}

// ── Laws ──────────────────────────────────────────────────────────────────

/// Filters are numbered from 1 without gaps: filter `i` takes the parameters
/// `2i` and `2i + 1`, under the number `i + 1`.
pub proof fn law_filters_are_numbered(f: Seq<(Seq<char>, Seq<char>)>, i: int)
    requires
        0 <= i < f.len(),
    ensures
        filter_params(f).len() == 2 * f.len(),
        filter_params(f)[2 * i] == (
            "Filter."@ + text::decimal((i + 1) as nat) + ".Name"@,
            f[i].0,
        ),
        filter_params(f)[2 * i + 1] == (
            "Filter."@ + text::decimal((i + 1) as nat) + ".Value.1"@,
            f[i].1,
        ),
    decreases f.len(),
{
    lemma_filter_count(f);
    lemma_filter_count(f.drop_last());
    if i < f.len() - 1 {
        law_filters_are_numbered(f.drop_last(), i);
    }
}

proof fn lemma_filter_count(f: Seq<(Seq<char>, Seq<char>)>)
    ensures
        filter_params(f).len() == 2 * f.len(),
    decreases f.len(),
{
    if f.len() > 0 {
        lemma_filter_count(f.drop_last());
    }
}

proof fn lemma_first_bad_tag(tags: Seq<Seq<char>>, i: int)
    requires
        0 <= i <= tags.len(),
    ensures
        match bad_tag(tags, i) {
            Some(k) => i <= k < tags.len() && !tags[k].contains('=') && forall|j: int|
                i <= j < k ==> (#[trigger] tags[j]).contains('='),
            None => forall|j: int| i <= j < tags.len() ==> (#[trigger] tags[j]).contains('='),
        },
    decreases tags.len() - i,
{
    if i < tags.len() {
        text::law_split_once_undoes_joining(tags[i], '=', tags[i], tags[i]);
        if text::split_once(tags[i], '=') is Some {
            lemma_first_bad_tag(tags, i + 1);
        }
    }
}

/// An id goes before a name, a name before a description, and a description before
/// tags. Tags select only where all of them have an equals sign, and the first
/// without one is named; nothing at all selects nothing.
pub proof fn law_what_selects(a: SelectorArgs)
    ensures
        match (a.eni_id, a.name, a.description) {
            (Some(id), _, _) => selected(a) == Ok::<SelectorView, Seq<char>>(
                SelectorView::Id(id@),
            ),
            (None, Some(n), _) => selected(a) == Ok::<SelectorView, Seq<char>>(
                SelectorView::Name(n@),
            ),
            (None, None, Some(d)) => selected(a) == Ok::<SelectorView, Seq<char>>(
                SelectorView::Description(d@),
            ),
            (None, None, None) => {
                &&& selected(a) is Ok <==> a.tag@.len() > 0 && forall|j: int|
                    0 <= j < a.tag@.len() ==> (#[trigger] a.tag@[j])@.contains('=')
                &&& selected(a) matches Ok(s) ==> s is Tags
                &&& a.tag@.len() > 0 ==> (selected(a) matches Err(e) ==> exists|k: int|
                    0 <= k < a.tag@.len() && !(#[trigger] a.tag@[k])@.contains('=') && e
                        == "--tag value '"@ + a.tag@[k]@ + "' is not in key=value format"@
                        && forall|j: int| 0 <= j < k ==> (#[trigger] a.tag@[j])@.contains('='))
            },
        },
{
    let tags = text::texts(a.tag@);
    lemma_first_bad_tag(tags, 0);
    assert forall|j: int| 0 <= j < a.tag@.len() implies (#[trigger] a.tag@[j])@ == tags[j] by {}
    match bad_tag(tags, 0) {
        Some(k) => {
            assert(!a.tag@[k]@.contains('='));
            assert forall|j: int| 0 <= j < k implies (#[trigger] a.tag@[j])@.contains('=') by {
                assert(tags[j].contains('='));
            }
        },
        None => {
            assert forall|j: int| 0 <= j < a.tag@.len() implies (#[trigger] a.tag@[j])@.contains(
                '=',
            ) by {
                assert(tags[j].contains('='));
            }
        },
    }
}

/// A tag is its key up to the first equals sign, and the value behind it.
pub proof fn law_tag_is_key_and_value(
    tags: Seq<Seq<char>>,
    i: int,
    key: Seq<char>,
    value: Seq<char>,
)
    requires
        0 <= i < tags.len(),
        tags[i] == key.push('=') + value,
        !key.contains('='),
    ensures
        tag_pairs(tags).len() == tags.len(),
        tag_pairs(tags)[i] == (key, value),
{
    text::law_split_once_undoes_joining(tags[i], '=', key, value);
}

/// What interfaces are filtered by: the name as a tag, the description, or each tag
/// under its key, and the status where one is asked for. An id is no filter.
pub proof fn law_filters_of_selector(s: SelectorView, status: Seq<char>)
    ensures
        ({
            let f = lookup_filters(s, None);
            let g = lookup_filters(s, Some(status));
            &&& g == f.push(("status"@, status))
            &&& match s {
                SelectorView::Id(_) => f.len() == 0,
                SelectorView::Name(n) => f.len() == 1 && f[0] == ("tag:Name"@, n),
                SelectorView::Description(d) => f.len() == 1 && f[0] == ("description"@, d),
                SelectorView::Tags(t) => f.len() == t.len() && forall|i: int|
                    0 <= i < t.len() ==> #[trigger] f[i] == ("tag:"@ + t[i].0, t[i].1),
            }
        }),
{
}

/// A request names the interface only where it is selected by its id, and every
/// filter is part of it.
pub proof fn law_request_holds_the_selector(s: SelectorView, status: Option<Seq<char>>, i: int)
    requires
        0 <= i < lookup_filters(s, status).len(),
    ensures
        ({
            let d = describe_pairs(s, status);
            let f = lookup_filters(s, status);
            &&& d[0] == ("Action"@, "DescribeNetworkInterfaces"@)
            &&& s matches SelectorView::Id(id) ==> d[2] == ("NetworkInterfaceId.1"@, id)
            &&& d.contains(("Filter."@ + text::decimal((i + 1) as nat) + ".Name"@, f[i].0))
            &&& d.contains(("Filter."@ + text::decimal((i + 1) as nat) + ".Value.1"@, f[i].1))
        }),
{
    let d = describe_pairs(s, status);
    let f = lookup_filters(s, status);
    let n = d.len() - filter_params(f).len();
    law_filters_are_numbered(f, i);
    assert(d[n + 2 * i] == filter_params(f)[2 * i]);
    assert(d[n + 2 * i + 1] == filter_params(f)[2 * i + 1]);
}

/// An action is confirmed by the word true in the reply, and by nothing else.
pub proof fn law_confirmation(action: Seq<char>, xml: Seq<char>)
    ensures
        unconfirmed(action, xml) is None <==> xml::scalar(xml, "return"@) == Some("true"@),
{
}

/// An interface can be taken over exactly where one is found with its id, and it is
/// either available or in use with an attachment that can be detached.
pub proof fn law_when_an_interface_can_be_taken_over(xml: Seq<char>)
    ensures
        takeover_error(xml) is None <==> {
            &&& xml::balanced(xml, "item"@) is Some
            &&& xml::scalar(first_item(xml)->0, "networkInterfaceId"@) is Some
            &&& xml::scalar(first_item(xml)->0, "status"@) == Some("available"@) || (xml::scalar(
                first_item(xml)->0,
                "status"@,
            ) == Some("in-use"@) && item_attachment(first_item(xml)->0) is Some)
        },
        detach_error(xml) is None <==> {
            &&& xml::balanced(xml, "item"@) is Some
            &&& xml::scalar(first_item(xml)->0, "networkInterfaceId"@) is Some
            &&& item_attachment(first_item(xml)->0) is Some
        },
        forall|status: Option<Seq<char>>|
            #[trigger] resolve_error(xml, status) is None <==> {
                &&& xml::balanced(xml, "item"@) is Some
                &&& item_count(xml) <= 1
                &&& xml::scalar(first_item(xml)->0, "networkInterfaceId"@) is Some
            },
{
    reveal_strlit("available");
    reveal_strlit("in-use");
    assert("available"@.len() != "in-use"@.len());
}

} // verus!
