use zap_engine::input::queue::InputQueue;

#[derive(Debug, Clone, Copy, PartialEq)]
enum InputEvent {
    PointerDown { x: f32, y: f32 },
    KeyDown { key_code: u32 },
    Custom { kind: u32, a: f32, b: f32, c: f32 },
}

#[test]
fn push_and_drain() {
    let mut q = InputQueue::new();
    q.push(InputEvent::PointerDown { x: 10.0, y: 20.0 });
    q.push(InputEvent::KeyDown { key_code: 32 });
    assert_eq!(q.len(), 2);
    let events = q.drain();
    assert_eq!(events.len(), 2);
    assert!(q.is_empty());
}

#[test]
fn custom_event() {
    let mut q = InputQueue::new();
    q.push(InputEvent::Custom { kind: 7, a: 1.5, b: 2.5, c: 3.5 });
    let events = q.drain();
    assert_eq!(events.len(), 1);
    match events[0] {
        InputEvent::Custom { kind, a, b, c } => {
            assert_eq!(kind, 7);
            assert_eq!(a, 1.5);
            assert_eq!(b, 2.5);
            assert_eq!(c, 3.5);
        }
        _ => panic!("Expected Custom event"),
    }
}

#[test]
fn drain_returns_events_oldest_first() {
    let mut q: InputQueue<u32> = InputQueue::default();
    q.push(3);
    q.push(1);
    q.push(2);
    assert_eq!(q.events(), &[3, 1, 2]);
    assert_eq!(q.drain(), vec![3, 1, 2]);
    assert_eq!(q.len(), 0);
    q.push(9);
    assert_eq!(q.drain(), vec![9]);
    assert!(q.drain().is_empty());
}
