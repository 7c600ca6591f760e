use tokito_native::netlist::{links_from_netlist, PinLink};

fn tuple(l: &PinLink) -> (String, String, String, String, String) {
    (l.a.clone(), l.a_pin.clone(), l.b.clone(), l.b_pin.clone(), l.net.clone())
}

fn t(a: &str, ap: &str, b: &str, bp: &str, n: &str) -> (String, String, String, String, String) {
    (a.into(), ap.into(), b.into(), bp.into(), n.into())
}

#[test]
fn pins_of_a_net_are_chained_one_per_instance() {
    let pins = vec![
        (1u128, 10u128, "1".to_string()),
        (2, 10, "2".to_string()),
        (1, 11, "1".to_string()),
        (1, 10, "3".to_string()),
        (1, 12, "2".to_string()),
        (2, 12, "1".to_string()),
    ];
    let nets = vec![(1u128, "VCC".to_string()), (2, "GND".to_string())];
    let insts = vec![(10u128, "R1".to_string()), (11, "C1".to_string()), (12, "U1".to_string())];
    let links: Vec<_> = links_from_netlist(&pins, &nets, &insts).iter().map(tuple).collect();
    assert_eq!(
        links,
        vec![
            t("R1", "1", "C1", "1", "VCC"),
            t("C1", "1", "U1", "2", "VCC"),
            t("R1", "2", "U1", "1", "GND"),
        ]
    );
}

#[test]
fn unnamed_nets_and_unknown_instances() {
    let pins = vec![(5u128, 1u128, "A".to_string()), (5, 2, "B".to_string()), (5, 3, "C".to_string())];
    // Instance 2 has no designator: neither of its links is drawn.
    let insts = vec![(1u128, "X1".to_string()), (3, "X3".to_string()), (1, "X9".to_string())];
    let links = links_from_netlist(&pins, &[], &insts);
    assert!(links.is_empty());
    let insts = vec![(1u128, "X1".to_string()), (2, "X2".to_string()), (1, "X9".to_string())];
    let links: Vec<_> = links_from_netlist(&pins[..2], &[(5, "old".to_string()), (5, "N5".to_string())], &insts)
        .iter()
        .map(tuple)
        .collect();
    assert_eq!(links, vec![t("X9", "A", "X2", "B", "N5")]);
    let links: Vec<_> = links_from_netlist(&pins[..2], &[], &insts).iter().map(tuple).collect();
    assert_eq!(links, vec![t("X9", "A", "X2", "B", "NET")]);
}
