use std::collections::HashSet;

use mux_stream::binding::Bindings;
use mux_stream::mux::multiplexer;
use mux_stream::tagged::Tagged;
use tokio::sync::mpsc::error::TryRecvError;

const A: u64 = 0;
const B: u64 = 1;
const C: u64 = 2;

#[derive(Debug, Clone, PartialEq, Eq, Hash)]
enum Value {
    Int(i32),
    Byte(u8),
    Text(&'static str),
}

#[test]
fn mux_example_scenario() {
    let (mut routes, mut rx) = multiplexer(Bindings::new(vec![A, B, C]).unwrap());
    assert_eq!(routes.len(), 3);
    assert!(routes[0].forward(Value::Int(123)).is_ok());
    assert!(routes[2].forward(Value::Text("Hello")).is_ok());
    assert!(routes[1].forward(Value::Byte(88)).is_ok());
    assert!(routes[0].forward(Value::Int(811)).is_ok());
    assert!(routes[2].forward(Value::Text("ABC")).is_ok());
    drop(routes);
    let mut got = HashSet::new();
    while let Some(item) = rx.inner.blocking_recv() {
        got.insert(item);
    }
    let expected: HashSet<Tagged<Value>> = vec![
        Tagged::new(A, Value::Int(123)),
        Tagged::new(A, Value::Int(811)),
        Tagged::new(B, Value::Byte(88)),
        Tagged::new(C, Value::Text("Hello")),
        Tagged::new(C, Value::Text("ABC")),
    ]
    .into_iter()
    .collect();
    assert_eq!(got, expected);
}

#[test]
fn mux_routes_know_their_binding() {
    let (routes, _rx) = multiplexer::<u8>(Bindings::new(vec![40, 50]).unwrap());
    assert_eq!(routes[0].index(), 0);
    assert_eq!(routes[0].tag(), 40);
    assert_eq!(routes[1].index(), 1);
    assert_eq!(routes[1].tag(), 50);
}

#[test]
fn mux_keeps_order_within_each_input() {
    let (mut routes, mut rx) = multiplexer(Bindings::new(vec![A, B]).unwrap());
    for i in 0..8u32 {
        routes[(i % 2) as usize].forward(i).unwrap();
        routes[1].forward(100 + i).unwrap();
    }
    drop(routes);
    let mut per_tag: Vec<Vec<u32>> = vec![Vec::new(), Vec::new()];
    while let Some(item) = rx.inner.blocking_recv() {
        per_tag[item.tag as usize].push(item.payload);
    }
    assert_eq!(per_tag[0], vec![0, 2, 4, 6]);
    assert_eq!(
        per_tag[1],
        vec![100, 1, 101, 102, 3, 103, 104, 5, 105, 106, 7, 107]
    );
}

#[test]
fn mux_output_ends_only_when_every_input_has() {
    let (mut routes, mut rx) = multiplexer(Bindings::new(vec![A, B, C]).unwrap());
    let last = routes.pop().unwrap();
    routes[0].forward(1u16).unwrap();
    drop(routes);
    assert_eq!(rx.inner.try_recv().map(|t| (t.tag, t.payload)), Ok((A, 1)));
    // One input is still active: the output stays open.
    assert_eq!(rx.inner.try_recv().map(|t| t.payload), Err(TryRecvError::Empty));
    drop(last);
    assert_eq!(rx.inner.try_recv().map(|t| t.payload), Err(TryRecvError::Disconnected));
}

#[test]
fn mux_failure_carries_wrapped_item() {
    let (mut routes, rx) = multiplexer(Bindings::new(vec![A, B]).unwrap());
    drop(rx);
    let failure = routes[1].forward(77i8).unwrap_err();
    assert_eq!(failure.route, 1);
    assert_eq!(failure.payload, Tagged::new(B, 77i8));
    assert!(routes[0].forward(5i8).is_err());
}
