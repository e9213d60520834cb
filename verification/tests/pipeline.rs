use kosmos::cell::{
    spawn_loop, Cell, CellError, Edge, Hop, KosmosCell, NextCell, SourceCell, TailCell, Turn,
    QUEUE_CAPACITY,
};
use kosmos::cron::CronCell;
use std::cell::RefCell;
use std::time::Duration;

fn counter() -> impl Fn(()) -> Result<u32, String> {
    let ticks = RefCell::new(0u32);
    move |_| {
        *ticks.borrow_mut() += 1;
        Ok(*ticks.borrow())
    }
}

fn ten_millis() -> Duration {
    Duration::from_millis(10)
}

#[test]
fn cron_map_tail() {
    let sink = RefCell::new(Vec::new());
    let mut cron = CronCell::new(counter(), ten_millis);
    let mut map = Cell::new(|n: u32| Ok::<u32, String>(2 * n));
    let mut tail = TailCell::new(|n: u32| {
        sink.borrow_mut().push(n);
        Ok::<(), String>(())
    });
    let mut first = cron.link_to(&mut map).unwrap();
    let mut second = map.link_to(&mut tail).unwrap();
    assert_eq!(cron.delay(), Duration::from_millis(10));
    for _ in 0..10 {
        assert_eq!(cron.run(&mut first), Ok(Hop::Forwarded));
        assert_eq!(map.run(&mut first, &mut second), Ok(Hop::Forwarded));
        assert_eq!(tail.run(&mut second), Ok(Hop::Forwarded));
    }
    assert_eq!(*sink.borrow(), vec![2, 4, 6, 8, 10, 12, 14, 16, 18, 20]);
}

#[test]
fn fifo_whatever_the_order_of_runs() {
    let sink = RefCell::new(Vec::new());
    let mut cron = CronCell::new(counter(), ten_millis);
    let mut map = Cell::new(|n: u32| Ok::<u32, String>(n));
    let mut tail = TailCell::new(|n: u32| {
        sink.borrow_mut().push(n);
        Ok::<(), String>(())
    });
    let mut first = cron.link_to(&mut map).unwrap();
    let mut second = map.link_to(&mut tail).unwrap();
    let schedule = [0, 0, 0, 1, 2, 2, 0, 1, 1, 1, 1, 0, 2, 2, 2, 2, 2, 1, 2, 0, 0, 1, 1, 2, 2];
    for stage in schedule.iter() {
        match stage {
            0 => {
                cron.run(&mut first).unwrap();
            }
            1 => {
                map.run(&mut first, &mut second).unwrap();
            }
            _ => {
                tail.run(&mut second).unwrap();
            }
        }
    }
    assert_eq!(*sink.borrow(), vec![1, 2, 3, 4, 5, 6, 7]);
}

#[test]
fn a_stalled_tail_blocks_the_cron_after_capacity_plus_one() {
    let calls = RefCell::new(0u32);
    let mut cron = CronCell::new(
        |_| {
            *calls.borrow_mut() += 1;
            Ok::<u32, String>(*calls.borrow())
        },
        ten_millis,
    );
    let mut tail = TailCell::new(|_: u32| Ok::<(), String>(()));
    let mut edge = cron.link_to(&mut tail).unwrap();
    for _ in 0..42 {
        assert_eq!(cron.run(&mut edge), Ok(Hop::Forwarded));
    }
    for _ in 0..10 {
        assert_eq!(cron.run(&mut edge), Ok(Hop::Blocked));
    }
    assert_eq!(*calls.borrow(), 43);
    assert_eq!(edge.len(), 42);
    assert_eq!(tail.run(&mut edge), Ok(Hop::Forwarded));
    assert_eq!(cron.run(&mut edge), Ok(Hop::Forwarded));
    assert_eq!(*calls.borrow(), 43);
    assert_eq!(cron.run(&mut edge), Ok(Hop::Blocked));
    assert_eq!(*calls.borrow(), 44);
}

#[test]
fn a_failing_lambda_drops_its_input_and_the_rest_comes_in_order() {
    let sink = RefCell::new(Vec::new());
    let mut cron = CronCell::new(counter(), ten_millis);
    let mut map = Cell::new(|n: u32| {
        if n % 2 == 0 {
            Err(format!("even {}", n))
        } else {
            Ok(n * 10)
        }
    });
    let mut tail = TailCell::new(|n: u32| {
        sink.borrow_mut().push(n);
        Ok::<(), String>(())
    });
    let mut first = cron.link_to(&mut map).unwrap();
    let mut second = map.link_to(&mut tail).unwrap();
    for tick in 1..=8u32 {
        cron.run(&mut first).unwrap();
        let hop = map.run(&mut first, &mut second);
        if tick % 2 == 0 {
            assert_eq!(hop, Err(CellError::LambdaFailed(format!("even {}", tick))));
            assert_eq!(tail.run(&mut second), Ok(Hop::Idle));
        } else {
            assert_eq!(hop, Ok(Hop::Forwarded));
            assert_eq!(tail.run(&mut second), Ok(Hop::Forwarded));
        }
    }
    assert_eq!(*sink.borrow(), vec![10, 30, 50, 70]);
}

#[test]
fn a_side_is_linked_once() {
    let mut cron = CronCell::new(counter(), ten_millis);
    let mut map = Cell::new(|n: u32| Ok::<u32, String>(n));
    let mut other = Cell::new(|n: u32| Ok::<u32, String>(n));
    let edge = cron.link_to(&mut map).unwrap();
    assert_eq!(edge.len(), 0);
    assert_eq!(cron.link_to(&mut other).err(), Some(CellError::NextExist));
    assert_eq!(other.check_set(), Err(CellError::SourceNotExist));
    let mut late = CronCell::new(counter(), ten_millis);
    assert_eq!(late.link_to(&mut map).err(), Some(CellError::SourceExist));
    assert_eq!(late.check_set(), Err(CellError::NextNotExist));
    assert!(!late.next_set());
    assert!(map.source_set());
    assert!(!map.next_set());
    let mut sink = TailCell::new(|_: u32| Ok::<(), String>(()));
    assert_eq!(late.link_to(&mut sink).map(|edge| edge.len()), Ok(0));
    assert_eq!(late.check_set(), Ok(()));
    assert_eq!(map.set_source(), Err(CellError::SourceExist));
    assert_eq!(map.set_next(), Ok(()));
    assert_eq!(map.set_next(), Err(CellError::NextExist));
}

#[test]
fn a_stage_does_not_run_unlinked() {
    let mut cron = CronCell::new(counter(), ten_millis);
    let mut map = Cell::new(|n: u32| Ok::<u32, String>(n));
    let mut tail = TailCell::new(|_: u32| Ok::<(), String>(()));
    let mut first: Edge<u32> = Edge::new(2);
    let mut second: Edge<u32> = Edge::new(2);
    assert_eq!(cron.check_set(), Err(CellError::NextNotExist));
    assert_eq!(cron.run(&mut first), Err(CellError::NextNotExist));
    assert_eq!(map.check_set(), Err(CellError::SourceNotExist));
    assert_eq!(map.run(&mut first, &mut second), Err(CellError::SourceNotExist));
    assert_eq!(tail.check_set(), Err(CellError::SourceNotExist));
    assert_eq!(tail.run(&mut first), Err(CellError::SourceNotExist));
    map.set_source().unwrap();
    assert_eq!(map.check_set(), Err(CellError::NextNotExist));
    assert_eq!(map.run(&mut first, &mut second), Err(CellError::NextNotExist));
    assert_eq!(first.len(), 0);
}

#[test]
fn a_map_stage_holds_one_output_while_downstream_is_full() {
    let mut map = Cell::new(|n: u32| Ok::<u32, String>(n + 100));
    map.set_source().unwrap();
    map.set_next().unwrap();
    let mut first: Edge<u32> = Edge::new(8);
    let mut second: Edge<u32> = Edge::new(1);
    for n in 0..4 {
        first.try_send(n).unwrap();
    }
    assert_eq!(map.run(&mut first, &mut second), Ok(Hop::Forwarded));
    assert_eq!(map.run(&mut first, &mut second), Ok(Hop::Blocked));
    assert_eq!(map.run(&mut first, &mut second), Ok(Hop::Blocked));
    assert_eq!(first.len(), 2);
    assert_eq!(second.try_recv(), Some(100));
    assert_eq!(map.run(&mut first, &mut second), Ok(Hop::Forwarded));
    assert_eq!(first.len(), 2);
    assert_eq!(second.try_recv(), Some(101));
    assert_eq!(second.try_recv(), None);
}

#[test]
fn a_closed_queue_ends_the_stage_once_it_is_empty() {
    let seen = RefCell::new(Vec::new());
    let mut tail = TailCell::new(|n: u32| {
        seen.borrow_mut().push(n);
        Ok::<(), String>(())
    });
    tail.set_source().unwrap();
    let mut edge: Edge<u32> = Edge::new(4);
    assert_eq!(tail.run(&mut edge), Ok(Hop::Idle));
    edge.try_send(5).unwrap();
    edge.close();
    assert!(edge.closed());
    assert_eq!(tail.run(&mut edge), Ok(Hop::Forwarded));
    assert_eq!(tail.run(&mut edge), Ok(Hop::Closed));
    assert_eq!(*seen.borrow(), vec![5]);
}

#[test]
fn a_failing_tail_or_cron_reports_the_lambda() {
    let mut tail = TailCell::new(|n: u32| Err::<(), String>(format!("no {}", n)));
    tail.set_source().unwrap();
    let mut edge: Edge<u32> = Edge::new(4);
    edge.try_send(9).unwrap();
    assert_eq!(tail.run(&mut edge), Err(CellError::LambdaFailed("no 9".to_owned())));
    assert_eq!(edge.len(), 0);
    let mut cron = CronCell::new(|_| Err::<u32, String>("tick".to_owned()), ten_millis);
    cron.set_next().unwrap();
    assert_eq!(cron.run(&mut edge), Err(CellError::LambdaFailed("tick".to_owned())));
    assert_eq!(edge.len(), 0);
}

#[test]
fn a_queue_is_bounded_and_first_in_first_out() {
    let mut edge: Edge<u8> = Edge::new(2);
    assert_eq!(edge.try_send(1), Ok(()));
    assert_eq!(edge.try_send(2), Ok(()));
    assert_eq!(edge.try_send(3), Err(3));
    assert_eq!(edge.len(), 2);
    assert_eq!(edge.try_recv(), Some(1));
    assert_eq!(edge.try_send(4), Ok(()));
    assert_eq!(edge.try_recv(), Some(2));
    assert_eq!(edge.try_recv(), Some(4));
    assert_eq!(edge.try_recv(), None);
}

#[test]
fn cell_errors_have_their_texts() {
    assert_eq!(CellError::SourceExist.message(), "Alreay has a source");
    assert_eq!(CellError::NextExist.message(), "Alreay has a next");
    assert_eq!(CellError::SourceNotExist.message(), "No source set");
    assert_eq!(CellError::NextNotExist.message(), "No next set");
    assert_eq!(CellError::LambdaFailed("x".to_owned()).message(), "Lambda error");
}

#[test]
fn the_loop_of_a_stage_survives_a_failing_lambda() {
    assert_eq!(spawn_loop(&Ok(Hop::Forwarded)), Turn::Again);
    assert_eq!(spawn_loop(&Ok(Hop::Idle)), Turn::Wait);
    assert_eq!(spawn_loop(&Ok(Hop::Blocked)), Turn::Wait);
    assert_eq!(spawn_loop(&Ok(Hop::Closed)), Turn::Stop);
    assert_eq!(spawn_loop(&Err(CellError::LambdaFailed("x".to_owned()))), Turn::Again);
    assert_eq!(spawn_loop(&Err(CellError::SourceNotExist)), Turn::Stop);
    assert_eq!(spawn_loop(&Err(CellError::NextNotExist)), Turn::Stop);
    assert_eq!(QUEUE_CAPACITY, 42);
}
