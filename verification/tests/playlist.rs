use adm::download::CancelToken;
use adm::playlist::{
    aggregate, aggregate_title, begin_item, delete_items, end_item, next_pending, pause_items,
    percent, permille, playlist_end, resumable_indices, resume_items, trunc, visible_map,
    ItemStatus, PlItem, PlaylistEnd,
};

fn item(status: ItemStatus, total: Option<u64>, speed: u64) -> PlItem {
    PlItem {
        url: "https://youtu.be/v".into(),
        title: "v".into(),
        status,
        error: if status == ItemStatus::Error { "boom".into() } else { String::new() },
        downloaded: 0,
        total,
        speed,
        output: None,
        cancel: CancelToken::new(),
    }
}

#[test]
fn status_labels() {
    assert_eq!(ItemStatus::Pending.label(), "Pending");
    assert_eq!(ItemStatus::Removed.label(), "Removed");
}

#[test]
fn aggregate_row() {
    let items = vec![
        item(ItemStatus::Done, Some(10), 0),
        item(ItemStatus::Downloading, None, 300),
        item(ItemStatus::Downloading, None, 200),
        item(ItemStatus::Removed, None, 999),
    ];
    assert_eq!(aggregate(&items), (1, 3, 500));
}

#[test]
fn end_states() {
    let done = vec![item(ItemStatus::Done, Some(10), 0), item(ItemStatus::Done, Some(5), 0)];
    assert_eq!(playlist_end(&done, false), PlaylistEnd::Completed { bytes: 15 });
    assert_eq!(playlist_end(&done, true), PlaylistEnd::Paused { done: 2 });
    let with_pending = vec![item(ItemStatus::Done, Some(10), 0), item(ItemStatus::Pending, None, 0)];
    assert_eq!(playlist_end(&with_pending, false), PlaylistEnd::Paused { done: 1 });
    let with_error = vec![item(ItemStatus::Done, Some(10), 0), item(ItemStatus::Error, None, 0)];
    assert_eq!(playlist_end(&with_error, false), PlaylistEnd::Failed);
    let all_removed = vec![item(ItemStatus::Removed, Some(10), 0)];
    assert_eq!(playlist_end(&all_removed, false), PlaylistEnd::Completed { bytes: 0 });
}

#[test]
fn visible_rows_and_next_pending() {
    let items = vec![
        item(ItemStatus::Removed, None, 0),
        item(ItemStatus::Done, None, 0),
        item(ItemStatus::Pending, None, 0),
        item(ItemStatus::Pending, None, 0),
    ];
    assert_eq!(visible_map(&items), vec![1, 2, 3]);
    assert_eq!(next_pending(&items), Some(2));
    assert_eq!(next_pending(&items[..2].iter().map(|_| item(ItemStatus::Done, None, 0)).collect()), None);
}

#[test]
fn resume_and_delete() {
    let mut items = vec![
        item(ItemStatus::Error, None, 0),
        item(ItemStatus::Done, None, 0),
        item(ItemStatus::Stopped, None, 0),
    ];
    assert_eq!(resumable_indices(&items), vec![0, 2]);
    resume_items(&mut items, &vec![0, 1]);
    assert_eq!(items[0].status, ItemStatus::Pending);
    assert!(items[0].error.is_empty());
    assert_eq!(items[1].status, ItemStatus::Done);
    assert_eq!(items[2].status, ItemStatus::Stopped);
    delete_items(&mut items, &vec![2]);
    assert_eq!(items[2].status, ItemStatus::Removed);
    assert_eq!(items[0].status, ItemStatus::Pending);
}

#[test]
fn text_and_numbers() {
    assert_eq!(trunc("abcdef", 3), "abc…");
    assert_eq!(trunc("abc", 3), "abc");
    assert_eq!(percent(50, 200), 25);
    assert_eq!(percent(500, 200), 100);
    assert_eq!(percent(u64::MAX, u64::MAX), 1);
    assert_eq!(permille(1, 3), 333);
    assert_eq!(permille(5, 0), 0);
}

#[test]
fn pausing_stops_running_and_waiting_items() {
    let mut items = vec![
        item(ItemStatus::Downloading, None, 500),
        item(ItemStatus::Pending, None, 0),
        item(ItemStatus::Done, Some(3), 0),
    ];
    let token = items[0].cancel.clone();
    pause_items(&mut items);
    assert_eq!(items[0].status, ItemStatus::Stopped);
    assert_eq!(items[0].speed, 0);
    assert!(token.is_cancelled());
    assert_eq!(items[1].status, ItemStatus::Stopped);
    assert_eq!(items[2].status, ItemStatus::Done);
}

#[test]
fn item_runs_begin_and_end() {
    let mut it = item(ItemStatus::Error, Some(9), 4);
    it.downloaded = 7;
    assert!(begin_item(&mut it));
    assert_eq!(it.status, ItemStatus::Downloading);
    assert_eq!((it.downloaded, it.total, it.speed), (0, None, 0));
    assert!(it.error.is_empty());
    it.speed = 100;
    end_item(&mut it, false, true, String::new(), Some("C:\\dl\\v.mp4".into()), Some(1234));
    assert_eq!(it.status, ItemStatus::Done);
    assert_eq!(it.output.as_deref(), Some("C:\\dl\\v.mp4"));
    assert_eq!((it.downloaded, it.total, it.speed), (1234, Some(1234), 0));

    let mut gone = item(ItemStatus::Removed, None, 0);
    assert!(!begin_item(&mut gone));
    end_item(&mut gone, false, false, "x".into(), None, None);
    assert_eq!(gone.status, ItemStatus::Removed);

    let mut cut = item(ItemStatus::Downloading, None, 10);
    end_item(&mut cut, true, false, String::new(), None, None);
    assert_eq!(cut.status, ItemStatus::Stopped);
    let mut resumed = item(ItemStatus::Pending, None, 10);
    end_item(&mut resumed, true, false, String::new(), None, None);
    assert_eq!(resumed.status, ItemStatus::Pending);

    let mut bad = item(ItemStatus::Downloading, None, 10);
    end_item(&mut bad, false, false, "ERROR: gone".into(), None, None);
    assert_eq!(bad.status, ItemStatus::Error);
    assert_eq!(bad.error, "ERROR: gone");
}

#[test]
fn aggregate_titles() {
    assert_eq!(aggregate_title("Mix", 3, 10), "Playlist: Mix (3/10)");
    assert_eq!(aggregate_title("", 0, 0), "Playlist:  (0/0)");
}
