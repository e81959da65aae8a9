use rustalizer::display::{bar_cells, bins_displayable, render_tick, HISTORY};
use rustalizer::equalizer::{find_named, select_device, select_host, stream_ready};
use rustalizer::errors::{BufferOp, Error, StreamOp};
use rustalizer::ring_buffer::RingBuffer;

fn names(list: &[&str]) -> Vec<String> {
    list.iter().map(|name| name.to_string()).collect()
}

#[test]
fn every_error_has_its_message() {
    assert_eq!(Error::NoCpalDevice.message(), "No cpal device available");
    assert_eq!(Error::BuildStream.message(), "Could not create build stream");
    assert_eq!(Error::PlayStream.message(), "Could not play stream");
    assert_eq!(Error::PauseStream.message(), "Could not pause stream");
    assert_eq!(
        Error::StreamOperation(StreamOp::Play).message(),
        "Cannot play because no stream set! Run connect first!"
    );
    assert_eq!(
        Error::StreamOperation(StreamOp::Pause).message(),
        "Cannot pause because no stream set! Run connect first!"
    );
    assert_eq!(
        Error::BufferOperation(BufferOp::Push).message(),
        "Push failed! The RingBuffer is full!"
    );
    assert_eq!(
        Error::BufferOperation(BufferOp::Pop).message(),
        "Pop failed! The RingBuffer is empty!"
    );
    assert_eq!(
        Error::FFTOperation.message(),
        "The input data was greater than the sampling rate, probably CPAL hiccup - ignoring"
    );
    assert_eq!(Error::IO.message(), "Could not create terminal backend!");
    assert_eq!(Error::MPSCRecv.message(), "The receiver queue is empty!");
    assert_eq!(Error::Crossterm.message(), "Could not create TUI");
}

#[test]
fn selector_picks_the_last_exact_match() {
    let list = names(&["default", "pulse", "monitor", "pulse", "Pulse"]);
    assert_eq!(find_named(&list, &"pulse".to_string()), Some(3));
    assert_eq!(find_named(&list, &"default".to_string()), Some(0));
    assert_eq!(find_named(&list, &"Pulse".to_string()), Some(4));
    assert_eq!(find_named(&list, &"puls".to_string()), None);
    assert_eq!(find_named(&Vec::new(), &"pulse".to_string()), None);
}

#[test]
fn device_without_a_match_is_an_error() {
    let list = names(&["default", "pulse"]);
    assert_eq!(select_device(&list, &Some("pulse".to_string())), Ok(1));
    assert_eq!(select_device(&list, &Some("jack".to_string())), Err(Error::NoCpalDevice));
    assert_eq!(select_device(&list, &None), Err(Error::NoCpalDevice));
}

#[test]
fn host_without_a_selector_is_the_default() {
    let list = names(&["ALSA", "JACK"]);
    assert_eq!(select_host(&list, &None), Ok(None));
    assert_eq!(select_host(&list, &Some("JACK".to_string())), Ok(Some(1)));
    assert_eq!(select_host(&list, &Some("jack".to_string())), Err(Error::NoCpalDevice));
}

#[test]
fn stream_operations_wait_for_connect() {
    assert_eq!(
        stream_ready(StreamOp::Play, false),
        Err(Error::StreamOperation(StreamOp::Play))
    );
    assert_eq!(
        stream_ready(StreamOp::Pause, false),
        Err(Error::StreamOperation(StreamOp::Pause))
    );
    assert_eq!(stream_ready(StreamOp::Play, true), Ok(()));
    assert_eq!(stream_ready(StreamOp::Pause, true), Ok(()));
}

#[test]
fn tick_shows_the_oldest_snapshot() {
    let mut history = RingBuffer::<Vec<usize>>::new(HISTORY);
    let mut shown: Vec<usize> = vec![9, 9];
    assert_eq!(render_tick(&mut history, None, &mut shown), Ok(()));
    assert_eq!(shown, vec![9, 9]);
    assert_eq!(render_tick(&mut history, Some(vec![1, 2, 3]), &mut shown), Ok(()));
    assert_eq!(shown, vec![1, 2, 3]);
    assert_eq!(history.size(), 0);
    assert_eq!(render_tick(&mut history, Some(Vec::new()), &mut shown), Ok(()));
    assert_eq!(shown, vec![1, 2, 3]);
    assert_eq!(history.push(vec![4]), Ok(()));
    assert_eq!(history.push(vec![5]), Ok(()));
    assert_eq!(render_tick(&mut history, Some(vec![6]), &mut shown), Ok(()));
    assert_eq!(shown, vec![4]);
    assert_eq!(history.size(), 2);
    assert_eq!(history.top(), Ok(vec![5]));
}

#[test]
fn tick_refuses_a_snapshot_when_the_history_is_full() {
    let mut history = RingBuffer::<Vec<usize>>::new(HISTORY);
    for generation in 0..HISTORY {
        assert_eq!(history.push(vec![generation]), Ok(()));
    }
    let mut shown: Vec<usize> = vec![7];
    assert_eq!(
        render_tick(&mut history, Some(vec![99]), &mut shown),
        Err(Error::BufferOperation(BufferOp::Push))
    );
    assert_eq!(shown, vec![7]);
    assert_eq!(history.size(), HISTORY);
    assert_eq!(render_tick(&mut history, None, &mut shown), Ok(()));
    assert_eq!(shown, vec![0]);
    assert_eq!(history.size(), HISTORY - 1);
}

#[test]
fn bar_heights() {
    assert_eq!(bar_cells(0), 0);
    assert_eq!(bar_cells(1), 1);
    assert_eq!(bar_cells(99), 1);
    assert_eq!(bar_cells(100), 1);
    assert_eq!(bar_cells(199), 1);
    assert_eq!(bar_cells(200), 2);
    assert_eq!(bar_cells(2999), 29);
    assert_eq!(bar_cells(3000), 30);
    assert_eq!(bar_cells(3001), 30);
    assert_eq!(bar_cells(usize::MAX), 30);
}

#[test]
fn at_most_thirty_one_bins_are_displayable() {
    assert!(bins_displayable(None));
    assert!(bins_displayable(Some(0)));
    assert!(bins_displayable(Some(31)));
    assert!(!bins_displayable(Some(32)));
}
