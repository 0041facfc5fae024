use litep2p_core::negotiation::{
    MultiplexerMode, Negotiation, NegotiationAction, Progress, Role, Stage, MULTIPLEXER_PROTOCOL,
    SECURITY_PROTOCOL,
};

#[test]
fn stages_run_in_order() {
    let mut negotiation = Negotiation::new(Role::Listener);
    assert_eq!(negotiation.next_action(), NegotiationAction::Negotiate { protocol: SECURITY_PROTOCOL });
    negotiation.on_stage_result(true);
    assert_eq!(negotiation.next_action(), NegotiationAction::Handshake { role: Role::Listener });
    negotiation.on_stage_result(true);
    assert_eq!(
        negotiation.next_action(),
        NegotiationAction::Negotiate { protocol: MULTIPLEXER_PROTOCOL }
    );
    negotiation.on_stage_result(true);
    assert_eq!(
        negotiation.next_action(),
        NegotiationAction::Bootstrap { mode: MultiplexerMode::Server }
    );
    negotiation.on_stage_result(true);
    assert_eq!(negotiation.current(), Progress::Ready);
    assert_eq!(negotiation.next_action(), NegotiationAction::Finished);
    assert_eq!(SECURITY_PROTOCOL, "/noise");
    assert_eq!(MULTIPLEXER_PROTOCOL, "/yamux/1.0.0");
}

#[test]
fn failure_ends_the_attempt() {
    let mut negotiation = Negotiation::new(Role::Dialer);
    negotiation.on_stage_result(true);
    negotiation.on_stage_result(false);
    assert_eq!(negotiation.current(), Progress::Failed(Stage::SecurityHandshake));
    negotiation.on_stage_result(true);
    assert_eq!(
        negotiation.next_action(),
        NegotiationAction::Abort { stage: Stage::SecurityHandshake }
    );
}
