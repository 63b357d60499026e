use std::collections::HashSet;
use std::sync::mpsc::{self, Receiver, Sender};
use wluma::predictor::controller::{Error, PENDING_COOLDOWN_RESET};
use wluma::predictor::data::{Data, Entry};
use wluma::predictor::Controller;

struct Channels {
    user_tx: Sender<u64>,
    als_tx: Sender<u64>,
    prediction_rx: Receiver<u64>,
}

fn setup() -> (Controller, Channels) {
    let (user_tx, user_rx) = mpsc::channel();
    let (als_tx, als_rx) = mpsc::channel();
    let (prediction_tx, prediction_rx) = mpsc::channel();
    user_tx.send(0).unwrap();
    let controller = Controller::new(prediction_tx, user_rx, als_rx, false, Data::new()).unwrap();
    (controller, Channels { user_tx, als_tx, prediction_rx })
}

#[test]
fn test_process_first_user_change() {
    let (mut controller, ch) = setup();

    // User changes brightness to value 33 for a given lux and luma
    ch.user_tx.send(33).unwrap();
    controller.process(12345, Some(66)).unwrap();

    assert_eq!(Some(Entry::new(12345, Some(66), 33)), controller.pending);
    assert_eq!(PENDING_COOLDOWN_RESET, controller.pending_cooldown);
}

#[test]
fn test_process_several_continuous_user_changes() {
    let (mut controller, ch) = setup();

    // User initiates brightness change for a given lux and luma to value 33...
    ch.user_tx.send(33).unwrap();
    controller.process(12345, Some(66)).unwrap();
    // then quickly continues increasing it to 34 (while lux and luma might already be different)...
    ch.user_tx.send(34).unwrap();
    controller.process(23456, Some(36)).unwrap();
    // and even faster to 36 (which is the intended brightness value they wish to learn for the initial lux and luma)
    ch.user_tx.send(35).unwrap();
    ch.user_tx.send(36).unwrap();
    controller.process(100, Some(16)).unwrap();

    assert_eq!(Some(Entry::new(12345, Some(66), 36)), controller.pending);
    assert_eq!(PENDING_COOLDOWN_RESET, controller.pending_cooldown);
}

#[test]
fn test_process_learns_user_change_after_cooldown() {
    let (mut controller, ch) = setup();

    // User changes brightness to a desired value
    ch.user_tx.send(33).unwrap();
    controller.process(12345, Some(66)).unwrap();
    ch.user_tx.send(33).unwrap();
    controller.process(23456, Some(36)).unwrap();
    ch.user_tx.send(35).unwrap();
    controller.process(100, Some(16)).unwrap();

    for i in 1..=PENDING_COOLDOWN_RESET {
        // User doesn't change brightness anymore, so even if lux or luma change, we are in cooldown period
        controller.process(100 + i as u64, Some(i)).unwrap();
        assert_eq!(PENDING_COOLDOWN_RESET - i, controller.pending_cooldown);
        assert_eq!(Some(Entry::new(12345, Some(66), 35)), controller.pending);
    }

    // One final process will trigger the learning
    controller.process(200, Some(17)).unwrap();

    assert_eq!(None, controller.pending);
    assert_eq!(0, controller.pending_cooldown);
    assert_eq!(vec![Entry::new(12345, Some(66), 35)], controller.data.entries);
}

// If user configured brightness value in certain conditions (amount of light around, screen contents),
// how changes in environment or screen contents can affect the desired brightness level:
//
// |                 | darker env      | same env         | brighter env     |
// | darker screen   | any             | same or brighter | same or brighter |
// | same screen     | same or dimmer  | only same        | same or brighter |
// | brighter screen | same or dimmer  | same or dimmer   | any              |

#[test]
fn test_learn_data_cleanup() {
    let (mut controller, _ch) = setup();

    let pending = Entry::new(10, Some(20), 30);

    let mut all_combinations: HashSet<Entry> = HashSet::new();
    for i in -1i32..=1 {
        for j in -1i32..=1 {
            for k in -1i32..=1 {
                all_combinations.insert(Entry::new(
                    (10 + i) as u64,
                    Some((20 + j) as u8),
                    (30 + k) as u64,
                ));
            }
        }
    }

    let to_be_deleted: HashSet<Entry> = vec![
        // darker env same screen
        Entry::new(9, Some(20), 31),
        // darker env brighter screen
        Entry::new(9, Some(21), 31),
        // same env darker screen
        Entry::new(10, Some(19), 29),
        // same env same screen
        Entry::new(10, Some(20), 29),
        Entry::new(10, Some(20), 31),
        // same env brighter screen
        Entry::new(10, Some(21), 31),
        // brighter env darker screen
        Entry::new(11, Some(19), 29),
        // brighter env same screen
        Entry::new(11, Some(20), 29),
    ]
    .into_iter()
    .collect();

    controller.data.entries = all_combinations.iter().cloned().collect();
    controller.pending = Some(pending);

    controller.learn();

    let to_remain: HashSet<&Entry> = all_combinations.difference(&to_be_deleted).collect();
    let remained: HashSet<&Entry> = controller.data.entries.iter().collect();

    assert_eq!(
        Vec::<&&Entry>::new(),
        to_remain.difference(&remained).collect::<Vec<_>>(),
        "unexpected entries were removed"
    );

    assert_eq!(
        Vec::<&&Entry>::new(),
        remained.difference(&to_remain).collect::<Vec<_>>(),
        "some entries were not removed"
    );

    assert_eq!(
        to_remain.len(),
        controller.data.entries.len(),
        "duplicate entries remained"
    );
}

#[test]
fn test_predict_no_data_points() {
    let (mut controller, ch) = setup();
    controller.data.entries = vec![];

    // predict() should not be called with no data, but just in case confirm we don't panic
    controller.predict(10, Some(20)).unwrap();

    assert_eq!(true, ch.prediction_rx.try_recv().is_err());
}

#[test]
fn test_predict_one_data_point() {
    let (mut controller, ch) = setup();
    controller.data.entries = vec![Entry::new(5, Some(10), 15)];

    controller.predict(10, Some(20)).unwrap();

    assert_eq!(15, ch.prediction_rx.try_recv().unwrap());
}

#[test]
fn test_predict_known_conditions() {
    let (mut controller, ch) = setup();
    controller.data.entries = vec![Entry::new(5, Some(10), 15), Entry::new(10, Some(20), 30)];

    controller.predict(10, Some(20)).unwrap();

    assert_eq!(30, ch.prediction_rx.try_recv().unwrap());
}

#[test]
fn test_predict_approximate() {
    let (mut controller, ch) = setup();
    controller.data.entries = vec![
        Entry::new(5, Some(10), 15),
        Entry::new(10, Some(20), 30),
        Entry::new(100, Some(100), 100),
    ];

    // Approximated using weighted distance to all known points:
    // dist1 = sqrt((x1 - x2)^2 + (y1 - y2)^2)
    // weight1 = (1/dist1) / (1/dist1 + 1/dist2 + 1/dist3)
    // prediction = weight1*brightness1 + weight2*brightness2 + weight3*brightness3
    controller.predict(50, Some(50)).unwrap();

    assert_eq!(44, ch.prediction_rx.try_recv().unwrap());
}

#[test]
fn test_predict_stays_between_learned_brightnesses() {
    let (mut controller, ch) = setup();
    controller.data.entries = vec![Entry::new(5, Some(10), 15), Entry::new(10, Some(20), 30)];

    // Even a query far outside the learned region interpolates, never
    // extrapolates.
    controller.predict(1000, Some(0)).unwrap();

    let p = ch.prediction_rx.try_recv().unwrap();
    assert!((15..=30).contains(&p));
}

#[test]
fn test_predict_exact_hit_divides_by_nothing() {
    let (mut controller, ch) = setup();
    controller.data.entries = vec![Entry::new(5, Some(10), 15)];

    controller.predict(5, Some(10)).unwrap();

    assert_eq!(15, ch.prediction_rx.try_recv().unwrap());
}

#[test]
fn test_predict_dead_channel_is_reported() {
    let (mut controller, ch) = setup();
    controller.data.entries = vec![Entry::new(5, Some(10), 15)];
    drop(ch.prediction_rx);

    assert_eq!(Err(Error::ChannelClosed), controller.predict(10, Some(20)));
}

#[test]
fn test_assemble_keeps_initial_brightness_only_on_empty_data() {
    let (_user_tx, user_rx) = mpsc::channel();
    let (_als_tx, als_rx) = mpsc::channel();
    let (prediction_tx, _prediction_rx) = mpsc::channel();

    let c = Controller::assemble(prediction_tx, user_rx, als_rx, false, Data::new(), 50);
    assert_eq!(Some(50), c.initial_brightness);

    let (_user_tx2, user_rx2) = mpsc::channel();
    let (_als_tx2, als_rx2) = mpsc::channel();
    let (prediction_tx2, _prediction_rx2) = mpsc::channel();
    let seeded = Data { entries: vec![Entry::new(1, Some(2), 3)] };

    let c2 = Controller::assemble(prediction_tx2, user_rx2, als_rx2, false, seeded, 50);
    assert_eq!(None, c2.initial_brightness);
}

#[test]
fn test_new_consumes_handshake_value_into_initial_brightness() {
    let (user_tx, user_rx) = mpsc::channel();
    let (_als_tx, als_rx) = mpsc::channel();
    let (prediction_tx, _prediction_rx) = mpsc::channel();

    user_tx.send(77).unwrap();
    let c = Controller::new(prediction_tx, user_rx, als_rx, false, Data::new()).unwrap();
    assert_eq!(Some(77), c.initial_brightness);
}

#[test]
fn test_handshake_timeout() {
    let (user_tx, user_rx) = mpsc::channel::<u64>();
    let (als_tx, als_rx) = mpsc::channel();
    let (prediction_tx, _prediction_rx) = mpsc::channel();

    // Nothing is ever sent on user_tx: construction must fail.
    let r = Controller::new(prediction_tx, user_rx, als_rx, false, Data::new());
    match r {
        Err(e) => assert_eq!(Error::HandshakeTimeout, e),
        Ok(_) => panic!("expected a handshake timeout"),
    }
    drop(user_tx);
    drop(als_tx);
}

#[test]
fn test_cold_start_learns_initial_brightness_and_predicts_it() {
    let (user_tx, user_rx) = mpsc::channel();
    let (als_tx, als_rx) = mpsc::channel();
    let (prediction_tx, prediction_rx) = mpsc::channel();

    // The brightness controller reports the device's current brightness.
    user_tx.send(50).unwrap();
    let mut controller =
        Controller::new(prediction_tx, user_rx, als_rx, false, Data::new()).unwrap();

    for _ in 0..19 {
        als_tx.send(100).unwrap();
    }

    // First tick only initializes the Kalman filter and emits nothing.
    assert_eq!(Ok(None), controller.adjust(Some(30)));
    // Second tick turns the initial brightness into the pending entry.
    assert_eq!(Ok(None), controller.adjust(Some(30)));
    assert_eq!(Some(Entry::new(100, Some(30), 50)), controller.pending);
    // The cooldown runs out...
    for _ in 0..PENDING_COOLDOWN_RESET {
        assert_eq!(Ok(None), controller.adjust(Some(30)));
    }
    // ...the pending entry is learned...
    assert_eq!(Ok(None), controller.adjust(Some(30)));
    assert_eq!(vec![Entry::new(100, Some(30), 50)], controller.data.entries);
    // ...and the next tick predicts the learned brightness.
    assert_eq!(Ok(Some(50)), controller.adjust(Some(30)));
    assert_eq!(50, prediction_rx.try_recv().unwrap());
    assert_eq!(true, prediction_rx.try_recv().is_err());
}

#[test]
fn test_adjust_dead_als_channel_is_reported() {
    let (mut controller, ch) = setup();
    drop(ch.als_tx);

    assert_eq!(Err(Error::ChannelClosed), controller.adjust(Some(30)));
}
