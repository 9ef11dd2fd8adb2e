use aerosuite::plug::{
    assign_params, attach_params, attachment_of, confirm, count_items, describe_eni_params,
    detach_params, ec2_host, interface_id_path, plan_takeover, poll_step, resolve_eni,
    resolve_eni_for_detach, unassign_params, EniSelector, PollStep, SelectorArgs, POLL_INTERVAL_MS,
};

fn args() -> SelectorArgs {
    SelectorArgs { eni_id: None, name: None, description: None, tag: vec![] }
}

fn text(params: Vec<(String, String)>) -> String {
    params.iter().map(|(k, v)| format!("{k}={v};")).collect()
}

fn some(s: &str) -> Option<String> {
    Some(s.to_string())
}

#[test]
fn selectors_have_an_order() {
    let mut a = args();
    assert_eq!(
        a.eni_selector().unwrap_err(),
        "No ENI selector provided (use --eni-id, --name, --description, or --tag)"
    );
    a.tag = vec!["role=mgmt=x".to_string(), "env".to_string()];
    assert_eq!(a.eni_selector().unwrap_err(), "--tag value 'env' is not in key=value format");
    a.tag.pop();
    assert!(matches!(
        a.eni_selector().unwrap(),
        EniSelector::Tags(t) if t == [("role".to_string(), "mgmt=x".to_string())]
    ));
    a.description = some("d");
    assert!(matches!(a.eni_selector().unwrap(), EniSelector::Description(d) if d == "d"));
    a.name = some("n");
    assert!(matches!(a.eni_selector().unwrap(), EniSelector::Name(n) if n == "n"));
    a.eni_id = some("eni-1");
    assert!(matches!(a.eni_selector().unwrap(), EniSelector::Id(i) if i == "eni-1"));
}

#[test]
fn lookups_are_filtered() {
    let head = "Action=DescribeNetworkInterfaces;Version=2016-11-15;";
    let p = |s: EniSelector, status: Option<&str>| text(describe_eni_params(&s, status));
    assert_eq!(
        p(EniSelector::Id("eni-1".to_string()), Some("available")),
        format!("{head}NetworkInterfaceId.1=eni-1;Filter.1.Name=status;Filter.1.Value.1=available;")
    );
    assert_eq!(
        p(EniSelector::Name("n".to_string()), None),
        format!("{head}Filter.1.Name=tag:Name;Filter.1.Value.1=n;")
    );
    assert_eq!(
        p(EniSelector::Description("d".to_string()), None),
        format!("{head}Filter.1.Name=description;Filter.1.Value.1=d;")
    );
    let tags = vec![("a".to_string(), "1".to_string()), ("b".to_string(), "2".to_string())];
    assert_eq!(
        p(EniSelector::Tags(tags), Some("in-use")),
        format!(
            "{head}Filter.1.Name=tag:a;Filter.1.Value.1=1;Filter.2.Name=tag:b;Filter.2.Value.1=2;\
             Filter.3.Name=status;Filter.3.Value.1=in-use;"
        )
    );
}

#[test]
fn requests_on_interfaces() {
    assert_eq!(ec2_host("eu-west-2"), "ec2.eu-west-2.amazonaws.com");
    assert_eq!(
        text(attach_params("eni-1", "i-1", 3)),
        "Action=AttachNetworkInterface;Version=2016-11-15;NetworkInterfaceId=eni-1;\
         InstanceId=i-1;DeviceIndex=3;"
    );
    assert_eq!(
        text(detach_params("a-1", true)),
        "Action=DetachNetworkInterface;Version=2016-11-15;AttachmentId=a-1;Force=true;"
    );
    assert_eq!(
        text(assign_params("eni-1", "10.0.0.1", false)),
        "Action=AssignPrivateIpAddresses;Version=2016-11-15;NetworkInterfaceId=eni-1;\
         PrivateIpAddress.1=10.0.0.1;AllowReassignment=false;"
    );
    assert_eq!(
        text(unassign_params("eni-1", "10.0.0.1")),
        "Action=UnassignPrivateIpAddresses;Version=2016-11-15;NetworkInterfaceId=eni-1;\
         PrivateIpAddress.1=10.0.0.1;"
    );
    assert_eq!(interface_id_path("02:aa"), "network/interfaces/macs/02:aa/interface-id");
}

#[test]
fn answers_confirm_or_explain() {
    assert_eq!(confirm("X", "<return> true </return>"), Ok(()));
    assert_eq!(
        confirm("X", "<return>false</return>").unwrap_err(),
        "X returned unexpected value: false"
    );
    assert_eq!(confirm("X", "<no/>").unwrap_err(), "Could not parse X response:\n<no/>");
    assert_eq!(attachment_of("<attachmentId>a-1</attachmentId>").unwrap(), "a-1");
    assert_eq!(
        attachment_of("").unwrap_err(),
        "Could not extract attachmentId from AttachNetworkInterface response"
    );
}

fn item(id: &str, status: &str, attachment: &str) -> String {
    format!(
        "<item><networkInterfaceId>{id}</networkInterfaceId><status>{status}</status>\
         <groupSet><item><groupId>g</groupId></item></groupSet>{attachment}\
         <privateIpAddress>10.0.0.7</privateIpAddress></item>"
    )
}

fn answer(items: &str) -> String {
    format!("<R><networkInterfaceSet>{items}</networkInterfaceSet></R>")
}

const ATTACHED: &str = "<attachment><attachmentId>a-1</attachmentId></attachment>";

#[test]
fn nested_items_do_not_count() {
    let one = answer(&item("eni-1", "available", ""));
    assert_eq!(count_items(&one), 1);
    assert_eq!(count_items(&answer("")), 0);
    assert_eq!(count_items("<item></item>"), 0);
    let two = answer(&(item("eni-1", "available", "") + &item("eni-2", "available", "")));
    assert_eq!(count_items(&two), 2);
    let f = resolve_eni(&one, Some("available")).unwrap();
    assert_eq!((f.eni_id.as_str(), f.private_ip.as_deref()), ("eni-1", Some("10.0.0.7")));
    assert_eq!(
        resolve_eni(&two, Some("available")).unwrap_err(),
        "More than one ENI matches the given selector. Use --eni-id for an unambiguous match."
    );
    assert_eq!(
        resolve_eni(&answer(""), Some("available")).unwrap_err(),
        "No ENI found matching the given selector with status 'available'. \
         Check the ENI exists and the selector / region are correct."
    );
    assert_eq!(
        resolve_eni(&answer(""), None).unwrap_err(),
        "No ENI found matching the given selector. \
         Check the ENI exists and the selector / region are correct."
    );
    assert_eq!(
        resolve_eni(&answer("<item></item>"), None).unwrap_err(),
        "Could not extract networkInterfaceId"
    );
}

#[test]
fn detaching_needs_an_attachment() {
    let x = answer(&(item("eni-1", "in-use", ATTACHED) + &item("eni-2", "in-use", ATTACHED)));
    let a = resolve_eni_for_detach(&x).unwrap();
    assert_eq!((a.eni_id.as_str(), a.attachment_id.as_str(), a.ambiguous), ("eni-1", "a-1", true));
    let e = |x: &str| resolve_eni_for_detach(x).unwrap_err();
    assert_eq!(
        e(&answer("")),
        "No in-use ENI found matching the given selector. \
         Is it actually attached? Check the selector and region."
    );
    assert_eq!(e("<item></item>"), "Could not extract networkInterfaceId");
    assert_eq!(
        e(&answer(&item("eni-1", "in-use", ""))),
        "ENI eni-1 has no attachment block — is it actually attached?"
    );
}

#[test]
fn takeovers_detach_first() {
    let t = plan_takeover(&answer(&item("eni-1", "in-use", ATTACHED))).unwrap();
    assert_eq!((t.eni_id.as_str(), t.detach.as_deref(), t.ambiguous), ("eni-1", Some("a-1"), false));
    let t = plan_takeover(&answer(&item("eni-1", "available", ATTACHED))).unwrap();
    assert_eq!((t.status.as_str(), t.detach), ("available", None));
    let e = |x: &str| plan_takeover(x).unwrap_err();
    assert_eq!(
        e(&answer("")),
        "No ENI found matching the given selector. Check the selector and region."
    );
    assert_eq!(e("<item></item>"), "Could not extract networkInterfaceId");
    assert_eq!(
        e("<item><networkInterfaceId>x</networkInterfaceId></item>"),
        "Could not extract ENI status"
    );
    assert_eq!(
        e(&answer(&item("eni-1", "in-use", ""))),
        "ENI is in-use but has no attachment block — cannot detach"
    );
    assert_eq!(
        e(&answer(&item("eni-1", "pending", ""))),
        "ENI eni-1 has unexpected status 'pending'; expected 'in-use' or 'available'."
    );
}

#[test]
fn waiting_for_an_interface() {
    let available = answer(&item("eni-1", "available", ""));
    let busy = answer(&item("eni-1", "detaching", ""));
    assert!(matches!(poll_step(&available, true, "eni-1", 30), PollStep::Available));
    assert!(matches!(poll_step(&busy, false, "eni-1", 30), PollStep::Again));
    assert!(matches!(poll_step("", false, "eni-1", 30), PollStep::Again));
    match poll_step(&busy, true, "eni-1", 30) {
        PollStep::TimedOut { message } => assert_eq!(
            message,
            "Timed out after 30 s waiting for eni-1 to become available. \
             Check the AWS console and retry."
        ),
        other => panic!("unexpected {other:?}"),
    }
    assert_eq!(POLL_INTERVAL_MS, 2_000);
}
