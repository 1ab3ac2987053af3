use whcanrc_assisted_listening::qos::{Domain, FlowStep, SocketStep, DSCP_EF, DSCP_EF_TOS};

fn set_up_socket(ipv4: bool, fails: impl Fn(SocketStep) -> bool) -> Vec<SocketStep> {
    let mut steps = vec![];
    let mut step = SocketStep::start(ipv4);
    while step != SocketStep::Ready && step != SocketStep::Failed {
        steps.push(step);
        step = step.next(!fails(step));
    }
    steps.push(step);
    steps
}

#[test]
fn socket_is_set_up_in_order() {
    assert_eq!(
        set_up_socket(true, |_| false),
        vec![
            SocketStep::Create(Domain::Ipv4),
            SocketStep::SetTos(0xB8),
            SocketStep::SetReuseAddress,
            SocketStep::Bind,
            SocketStep::MarkFlow,
            SocketStep::Ready,
        ]
    );
    assert_eq!(SocketStep::start(false), SocketStep::Create(Domain::Ipv6));
    assert_eq!(DSCP_EF_TOS, DSCP_EF << 2);
}

#[test]
fn socket_is_ready_without_marking() {
    let steps = set_up_socket(true, |s| s == SocketStep::SetTos(0xB8) || s == SocketStep::MarkFlow);
    assert_eq!(steps.last(), Some(&SocketStep::Ready));
}

#[test]
fn socket_needs_the_other_calls() {
    for needed in [
        SocketStep::Create(Domain::Ipv4),
        SocketStep::SetReuseAddress,
        SocketStep::Bind,
    ] {
        let steps = set_up_socket(true, |s| s == needed);
        assert_eq!(steps.last(), Some(&SocketStep::Failed));
    }
}

fn set_up_flow(fails: impl Fn(FlowStep) -> bool) -> FlowStep {
    let mut step = FlowStep::start();
    while step != FlowStep::Done && step != FlowStep::NoHandle && step != FlowStep::NoFlow {
        step = step.next(!fails(step));
    }
    step
}

#[test]
fn flow_falls_back_to_no_destination() {
    let first = FlowStep::AddSocket { any_destination: true, non_adaptive: true };
    let second = FlowStep::AddSocket { any_destination: false, non_adaptive: false };
    assert_eq!(FlowStep::start(), FlowStep::CreateHandle { major: 1, minor: 0 });
    assert_eq!(FlowStep::start().next(true), first);
    assert_eq!(first.next(false), second);
    assert_eq!(first.next(true), FlowStep::SetDscp(46));
    assert_eq!(set_up_flow(|_| false), FlowStep::Done);
    assert_eq!(set_up_flow(|s| s == first), FlowStep::Done);
    assert_eq!(set_up_flow(|s| s == first || s == second), FlowStep::NoFlow);
    assert_eq!(set_up_flow(|s| s == FlowStep::start()), FlowStep::NoHandle);
    assert_eq!(set_up_flow(|s| s == FlowStep::SetDscp(46)), FlowStep::Done);
}
