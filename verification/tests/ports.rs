use rtcnet::addr::{IpAddr, SocketAddr};
use rtcnet::error::Error;
use rtcnet::ports::{listen_from, listen_udp_in_port_range, Listen, PortScan};

fn any(port: u16) -> SocketAddr {
    SocketAddr::new(IpAddr::V4(0), port)
}

#[test]
fn a_named_port_or_no_range_is_bound_as_it_is() {
    assert_eq!(listen_from(0, 0, any(0), 9).unwrap(), Listen::Once(any(0)));
    assert_eq!(
        listen_from(6000, 5000, any(80), 9).unwrap(),
        Listen::Once(any(80))
    );
    assert_eq!(listen_from(0, 0, any(0), 9).unwrap().address(), any(0));
    assert_eq!(
        listen_udp_in_port_range(4999, 5000, any(80)).unwrap(),
        Listen::Once(any(80))
    );
}

#[test]
fn an_empty_range_is_refused() {
    assert!(matches!(
        listen_from(4999, 5000, any(0), 9),
        Err(Error::ErrPort)
    ));
    assert!(matches!(
        listen_udp_in_port_range(4999, 5000, any(0)),
        Err(Error::ErrPort)
    ));
}

#[test]
fn the_walk_begins_where_the_random_number_falls() {
    let listen = listen_from(5009, 5000, any(0), 1234).unwrap();
    assert_eq!(listen.address(), any(5004));
    let listen = listen_from(0, 65000, any(0), 535).unwrap();
    assert_eq!(listen.address(), any(65535));
    let listen = listen_from(10, 0, any(0), 10).unwrap();
    assert_eq!(listen.address(), any(1));
}

#[test]
fn the_walk_tries_each_port_once() {
    let mut scan = PortScan::new(5000, 5004, 3);
    let mut tried = vec![scan.current()];
    while let Ok(port) = scan.advance() {
        tried.push(port);
    }
    assert_eq!(tried, [5003, 5004, 5000, 5001, 5002]);
}

#[test]
fn a_range_of_one_port_is_tried_once() {
    let mut scan = PortScan::new(7000, 7000, 42);
    assert_eq!(scan.current(), 7000);
    assert!(matches!(scan.advance(), Err(Error::ErrPort)));
}

#[test]
fn random_starts_stay_in_the_range() {
    for _ in 0..200 {
        match listen_udp_in_port_range(5010, 5000, any(0)).unwrap() {
            Listen::Range(ip, scan) => {
                assert_eq!(ip, IpAddr::V4(0));
                assert!((5000..=5010).contains(&scan.current()));
            }
            other => panic!("{other:?}"),
        }
    }
}

#[test]
fn random_starts_vary() {
    let first = listen_udp_in_port_range(0, 1, any(0)).unwrap().address();
    assert!((0..50).any(|_| listen_udp_in_port_range(0, 1, any(0)).unwrap().address() != first));
}
