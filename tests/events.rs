use liquidity_pool::events::{Event, EventLog, EventsModule, ProvisionEvent, SwapEvent};

#[test]
fn events_are_logged_in_order() {
    let mut log = EventLog::new();
    assert_eq!(log.len(), 0);
    let swap = SwapEvent {
        caller: vec![1; 32],
        token_id_in: b"WEGLD-bd4d79".to_vec(),
        token_amount_in: 1000,
        token_id_out: b"STCOIN-123456".to_vec(),
        token_amount_out: 990,
        fee_amount: 10,
        block: 5,
        epoch: 2,
        timestamp: 600,
    };
    let provision = ProvisionEvent {
        caller: vec![2; 32],
        token_id_in: b"WEGLD-bd4d79".to_vec(),
        token_amount_in: 50,
        block: 6,
        epoch: 2,
        timestamp: 606,
    };
    log.emit_swap_event(&swap);
    log.emit_provide_collateral_event(&provision);
    assert_eq!(log.len(), 2);
    match log.get(0) {
        Event::Swap(e) => {
            assert_eq!(e.token_amount_out, 990);
            assert_eq!(e.token_id_out, b"STCOIN-123456".to_vec());
        }
        Event::ProvideCollateral(_) => panic!("expected a swap first"),
    }
    match log.get(1) {
        Event::ProvideCollateral(e) => {
            assert_eq!(e.token_amount_in, 50);
            assert_eq!(e.caller, vec![2; 32]);
        }
        Event::Swap(_) => panic!("expected a provision second"),
    }
}
