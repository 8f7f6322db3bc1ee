use litebox::local_ports::{LocalPortAllocationError, LocalPortAllocator};

#[test]
fn specific_port_is_given_once() {
    let mut a = LocalPortAllocator::new();
    let p = a.specific_port(8080).unwrap();
    assert_eq!(p.port(), 8080);
    assert!(matches!(a.specific_port(8080), Err(LocalPortAllocationError::AlreadyInUse(8080))));
    a.deallocate(p);
    assert_eq!(a.specific_port(8080).unwrap().port(), 8080);
}

#[test]
fn ephemeral_port_takes_first_free_candidate() {
    let mut a = LocalPortAllocator::default();
    let _held = a.specific_port(50000).unwrap();
    let p = a.ephemeral_port(&vec![80, 50000, 60001, 60002]).unwrap();
    assert_eq!(p.port(), 60001);
}

#[test]
fn ephemeral_port_scans_when_candidates_fail() {
    let mut a = LocalPortAllocator::new();
    let first = a.ephemeral_port(&vec![]).unwrap();
    assert_eq!(first.port(), 49152);
    let second = a.ephemeral_port(&vec![49152, 1]).unwrap();
    assert_eq!(second.port(), 49153);
}

#[test]
fn ephemeral_ports_run_out() {
    let mut a = LocalPortAllocator::new();
    let mut held = Vec::new();
    for port in 49152..65535u16 {
        held.push(a.specific_port(port).unwrap());
    }
    let last = a.ephemeral_port(&vec![49152, 60000]).unwrap();
    assert_eq!(last.port(), 65535);
    assert!(matches!(a.ephemeral_port(&vec![50000]), Err(LocalPortAllocationError::NoAvailableFreePorts)));
}
