use app_blocker::config::{ScheduleMode, Track};
use app_blocker::time::{fits, Block};
use app_blocker::timeline::{
    block_at, block_count_text, copy_targets, count_text, dragged_block, edited_block, lane_to_show, place_new_block, sort_lane, DragKind,
};

fn b(start: u16, end: u16) -> Block {
    Block::new(start, end).unwrap()
}

#[test]
fn dragging_moves_and_resizes() {
    let lane = vec![b(540, 600), b(720, 780)];
    assert_eq!(dragged_block(&lane, 0, DragKind::Move, lane[0], 600, 5), b(600, 660));
    assert_eq!(dragged_block(&lane, 0, DragKind::Move, lane[0], 700, 5), b(660, 720), "stops where it first fits");
    assert_eq!(dragged_block(&lane, 0, DragKind::Move, lane[0], -50, 5), b(0, 60), "kept within the day");
    assert_eq!(dragged_block(&lane, 0, DragKind::End, lane[0], 700, 5), b(540, 700));
    assert_eq!(dragged_block(&lane, 0, DragKind::End, lane[0], 900, 5), b(540, 720), "the end stops at the next block");
    assert_eq!(dragged_block(&lane, 0, DragKind::End, lane[0], 500, 5), b(540, 545), "at least one step long");
    assert_eq!(dragged_block(&lane, 1, DragKind::Start, lane[1], 500, 5), b(600, 780), "the start stops at the block before");
    assert_eq!(dragged_block(&lane, 1, DragKind::Start, lane[1], 800, 5), b(775, 780));
    let night = vec![b(1380, 120)];
    assert_eq!(dragged_block(&night, 0, DragKind::Tail, night[0], 180, 5), b(1380, 180));
    assert_eq!(dragged_block(&night, 0, DragKind::Tail, night[0], 0, 1), b(1380, 1440));
}

#[test]
fn adding_and_editing_blocks() {
    let lane = vec![b(540, 600)];
    assert_eq!(block_at(&lane, 601), Some(b(601, 661)));
    assert_eq!(block_at(&lane, 500), Some(b(500, 530)), "a shorter block where a long one does not fit");
    assert_eq!(block_at(&lane, 2000), Some(b(1435, 55)), "kept five minutes before midnight");
    assert_eq!(block_at(&[b(0, 1440)], 300), None);
    assert_eq!(place_new_block(&lane, 540), Some(b(600, 660)));
    assert_eq!(place_new_block(&[b(0, 1440)], 540), None);

    let lanes = vec![b(540, 600), b(720, 780)];
    assert_eq!(edited_block(&lanes, 0, " 09:00 ", false), Ok(None), "unchanged text does nothing");
    assert_eq!(edited_block(&lanes, 0, "08:30", false), Ok(Some(b(510, 600))));
    assert_eq!(edited_block(&lanes, 0, "12:30", true), Err("That time would overlap another block on this lane.".to_string()));
    assert_eq!(edited_block(&lanes, 0, "9am", false), Err("Invalid time '9am'. Use 24-hour HH:MM format.".to_string()));
    assert_eq!(edited_block(&lanes, 0, "10:00", false), Err("A block's start and end times must be different.".to_string()));
    assert_eq!(edited_block(&lanes, 1, "24:00", true), Ok(Some(b(720, 1440))));
}

#[test]
fn lanes_and_order() {
    let mut lane = vec![b(720, 780), b(540, 600), b(60, 120)];
    assert_eq!(sort_lane(&mut lane, Some(0)), Some(2));
    assert_eq!(lane, vec![b(60, 120), b(540, 600), b(720, 780)]);
    assert_eq!(sort_lane(&mut lane, None), None);
    assert_eq!(sort_lane(&mut lane, Some(9)), None);
    assert!(fits(&lane, Some(1), &b(500, 700)));
    assert!(!fits(&lane, None, &b(500, 700)));
    assert_eq!(copy_targets(ScheduleMode::WeekdayWeekend, Track::Weekday), vec![Track::Weekend]);
    assert!(copy_targets(ScheduleMode::EveryDay, Track::EveryDay).is_empty());
    assert_eq!(copy_targets(ScheduleMode::IndividualDays, Track::Monday).len(), 6);
    assert_eq!(lane_to_show(ScheduleMode::WeekdayWeekend, Track::Weekend, 0), Track::Weekend);
    assert_eq!(lane_to_show(ScheduleMode::WeekdayWeekend, Track::Monday, 6), Track::Weekend);
    assert_eq!(lane_to_show(ScheduleMode::IndividualDays, Track::EveryDay, 2), Track::Wednesday);
    assert_eq!(count_text(1), "1 app is");
    assert_eq!(count_text(2), "2 apps are");
    assert_eq!(block_count_text(0), "no blocks");
    assert_eq!(block_count_text(1), "1 block");
    assert_eq!(block_count_text(12), "12 blocks");
}

#[test]
fn drags_keep_the_lane_free() {
    let lane = vec![b(0, 60), b(60, 1380), b(1380, 1440)];
    for kind in [DragKind::Move, DragKind::Start, DragKind::End] {
        for index in 0..lane.len() {
            for snapped in [-100, 0, 30, 600, 1400, 2000] {
                let r = dragged_block(&lane, index, kind, lane[index], snapped, 5);
                for (other, block) in lane.iter().enumerate() {
                    assert!(other == index || !r.overlaps(block), "{kind:?} {index} {snapped}");
                }
            }
        }
    }
    let night = vec![b(1380, 420), b(600, 660)];
    let r = dragged_block(&night, 0, DragKind::End, night[0], 2000, 5);
    assert_eq!(r, b(1380, 1440), "an overnight block's end stays within its day");
    assert!(!r.overlaps(&night[1]));
}
