//! Messages about slots that backends claim and release.

use vstd::prelude::*;

use crate::infra::ipv4;
use crate::infra::slot_network::SlotNetwork;
use crate::scale::cleanup;
use crate::scale::cleanup::{Action, ActionView};
use crate::text;

verus! {

/// A message on the `asg-change` channel.
#[derive(Debug)]
pub struct AsgChangeMsg {
    pub slot: u32,
    pub action: String,
    /// Only in release messages.
    pub instance_id: Option<String>,
}

/// What a message asks for: a claim enables the backend; a release disables
/// it and terminates the instance where it is named; anything else is ignored.
pub open spec fn message_actions(msg: AsgChangeMsg, net: SlotNetwork, decrement: bool) -> Seq<
    ActionView,
> {
    let ip = net.slot_ip(msg.slot);
    if msg.action@ == "claim"@ {
        seq![ActionView::Enable { ip }]
    } else if msg.action@ == "release"@ {
        match msg.instance_id {
            Some(id) => seq![
                ActionView::Disable { ip },
                ActionView::Terminate { instance_id: id@, decrement },
            ],
            None => seq![ActionView::Disable { ip }],
        }
    } else {
        Seq::empty()
    }
}

/// The actions for a message; each is carried out whether or not the one
/// before it worked.
pub fn handle_message(msg: &AsgChangeMsg, net: &SlotNetwork, decrement: bool) -> (actions: Vec<
    Action,
>)
    requires
        net.fits(msg.slot as int),
    ensures
        cleanup::action_views(actions@) == message_actions(*msg, *net, decrement),
{
    let ip = net.ip_for_slot(msg.slot);
    let mut actions: Vec<Action> = Vec::new();
    if text::str_eq(msg.action.as_str(), "claim") {
        actions.push(Action::Enable { ip });
    } else if text::str_eq(msg.action.as_str(), "release") {
        actions.push(Action::Disable { ip });
        match &msg.instance_id {
            Some(id) => {
                actions.push(
                    Action::Terminate { instance_id: text::copy_str(id.as_str()), decrement },
                );
            },
            None => {},
        }
    }
    assert(cleanup::action_views(actions@) =~= message_actions(*msg, *net, decrement));
    actions
}

/// A claim and a release concern the address of the slot of the message only: a
/// claim enables it and a release disables it; only a release that names an
/// instance terminates one, and terminates that one.
pub proof fn law_message_concerns_its_slot(
    msg: AsgChangeMsg,
    net: SlotNetwork,
    decrement: bool,
    a: ActionView,
)
    ensures
        ({
            let done = message_actions(msg, net, decrement);
            let ip = net.slot_ip(msg.slot);
            &&& msg.action@ == "claim"@ ==> (done.contains(a) <==> a == (ActionView::Enable { ip }))
            &&& msg.action@ == "release"@ ==> (done.contains(a) <==> a == (ActionView::Disable {
                ip,
            }) || (a matches ActionView::Terminate { instance_id, decrement: d } && d == decrement
                && text::opt_text(msg.instance_id) == Some(instance_id)))
            &&& msg.action@ != "claim"@ && msg.action@ != "release"@ ==> !done.contains(a)
            &&& done.len() <= 2
        }),
{
    reveal_strlit("claim");
    reveal_strlit("release");
    let done = message_actions(msg, net, decrement);
    let ip = net.slot_ip(msg.slot);
    assert("claim"@.len() != "release"@.len());
    if msg.action@ == "claim"@ {
        assert(done[0] == ActionView::Enable { ip });
    } else if msg.action@ == "release"@ {
        assert(done[0] == ActionView::Disable { ip });
        match msg.instance_id {
            Some(id) => {
                assert(done[1] == ActionView::Terminate { instance_id: id@, decrement });
            },
            None => {},
        }
    }
}

} // verus!
