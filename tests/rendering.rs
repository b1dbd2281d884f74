use metro::Event::{JoinTrack, NoEvent, SplitTrack, StartTrack, StartTracks, Station, StopTrack};
use metro::{draw_row, to_string, to_vec, Event, Interpreter, Metro, Shape};

fn render_with(events: &[Event]) -> (String, Vec<usize>) {
    let mut interpreter = Interpreter::new();
    let mut out = String::new();
    for event in events {
        interpreter.apply(event, &mut out);
    }
    (out, interpreter.tracks().clone())
}

#[test]
fn rendering_twice_gives_the_same_text() {
    let events = [
        StartTracks(&[0, 1, 2, 3]),
        SplitTrack(1, 7),
        Station(7, "x\ny"),
        JoinTrack(3, 0),
        StopTrack(1),
        NoEvent,
    ];
    let first = to_string(&events).unwrap();
    let second = to_string(&events).unwrap();
    assert_eq!(first, second);
    assert_eq!(render_with(&events).0, first);
}

#[test]
fn each_shape_has_one_token_per_column() {
    assert_eq!(draw_row(Shape::Plain, 3), "| | |");
    assert_eq!(draw_row(Shape::Plain, 0), "");
    assert_eq!(draw_row(Shape::Marker(1), 3), "| * |");
    assert_eq!(draw_row(Shape::Branch(1), 4), "| |\\ \\ \\");
    assert_eq!(draw_row(Shape::Halt(0), 2), "\" |");
    assert_eq!(draw_row(Shape::Pull(1), 4), "|  / /");
    assert_eq!(draw_row(Shape::Merge(0), 2), "|/ /");
    assert_eq!(draw_row(Shape::Slide(1, 3), 4), "| | |/ /");
    assert_eq!(draw_row(Shape::Land(1), 3), "| |/|");
}

#[test]
fn rows_keep_the_live_track_count() {
    let events = [StartTracks(&[0, 1, 2, 3, 4, 5]), JoinTrack(4, 0), NoEvent];
    let string = to_string(&events).unwrap();
    assert_eq!(
        string,
        "| | | | | |\n| |_|_|/ /\n|/| | | |\n| | | | |\n"
    );
}

#[test]
fn split_to_live_track_is_a_no_op() {
    let (out, tracks) = render_with(&[StartTracks(&[0, 1, 2]), SplitTrack(0, 2)]);
    assert_eq!(out, "| | |\n");
    assert_eq!(tracks, vec![0, 1, 2]);
}

#[test]
fn redundant_start_members_are_skipped() {
    let (out, tracks) = render_with(&[StartTracks(&[1, 0, 1, 2, 2]), StartTrack(2)]);
    assert_eq!(out, "| | |\n");
    assert_eq!(tracks, vec![0, 1, 2]);
}

#[test]
fn split_from_dead_track_equals_start_track() {
    let a = to_string(&[
        StartTracks(&[0, 1, 2]),
        SplitTrack(5, 6),
        SplitTrack(7, 8),
        Station(6, "2"),
        Station(8, "4"),
    ])
    .unwrap();
    let b = to_string(&[
        StartTracks(&[0, 1, 2]),
        StartTrack(6),
        StartTrack(8),
        Station(6, "2"),
        Station(8, "4"),
    ])
    .unwrap();
    assert_eq!(a, b);
    assert_eq!(a, "| | |\n| | | |\n| | | | |\n| | | * | 2\n| | | | * 4\n");
}

#[test]
fn self_join_equals_stop() {
    let a = to_string(&[StartTracks(&[0, 1, 2]), JoinTrack(0, 0)]).unwrap();
    let b = to_string(&[StartTracks(&[0, 1, 2]), StopTrack(0)]).unwrap();
    assert_eq!(a, b);
}

#[test]
fn join_into_dead_track_equals_stop() {
    let a = to_string(&[StartTracks(&[0, 1, 2]), JoinTrack(2, 10)]).unwrap();
    let b = to_string(&[StartTracks(&[0, 1, 2]), StopTrack(2)]).unwrap();
    assert_eq!(a, b);
    assert_eq!(a, "| | |\n| | \"\n");
}

#[test]
fn join_of_dead_tracks_is_a_no_op() {
    let (out, tracks) = render_with(&[StartTracks(&[0, 1, 2]), JoinTrack(10, 11)]);
    assert_eq!(out, "| | |\n");
    assert_eq!(tracks, vec![0, 1, 2]);
}

#[test]
fn stopping_rightmost_track_draws_one_row() {
    let (out, tracks) = render_with(&[StartTracks(&[0, 1, 2]), StopTrack(2)]);
    assert_eq!(out, "| | |\n| | \"\n");
    assert_eq!(tracks, vec![0, 1]);
}

#[test]
fn stopping_other_track_draws_two_rows() {
    let (out, tracks) = render_with(&[StartTracks(&[0, 1, 2]), StopTrack(1)]);
    assert_eq!(out, "| | |\n| \" |\n|  /\n");
    assert_eq!(tracks, vec![0, 2]);
}

#[test]
fn stop_leftmost_then_tick() {
    let (out, tracks) = render_with(&[StartTracks(&[0, 1, 2]), StopTrack(0), NoEvent]);
    assert_eq!(out, "| | |\n\" | |\n / /\n| |\n");
    assert_eq!(tracks, vec![1, 2]);
}

#[test]
fn waypoint_hello_world() {
    let (out, _) = render_with(&[StartTracks(&[0, 1, 2]), Station(1, "Hello World")]);
    assert_eq!(out, "| | |\n| * | Hello World\n");
}

#[test]
fn split_inserts_right_of_source() {
    let (out, tracks) = render_with(&[StartTracks(&[0, 1, 2]), SplitTrack(1, 4)]);
    assert_eq!(out, "| | |\n| |\\ \\\n");
    assert_eq!(tracks, vec![0, 1, 4, 2]);
}

#[test]
fn join_across_tracks() {
    let (out, tracks) = render_with(&[StartTracks(&[0, 1, 2, 3, 4]), JoinTrack(4, 0), NoEvent]);
    assert_eq!(out, "| | | | |\n| |_|_|/\n|/| | |\n| | | |\n");
    assert_eq!(tracks, vec![0, 1, 2, 3]);
}

#[test]
fn no_events_draw_nothing() {
    let (out, tracks) = render_with(&[]);
    assert_eq!(out, "");
    assert_eq!(tracks, vec![0]);
    assert_eq!(to_string(&[]).unwrap(), "");
}

#[test]
fn three_ticks() {
    assert_eq!(to_string(&[NoEvent, NoEvent, NoEvent]).unwrap(), "|\n|\n|\n");
}

#[test]
fn station_with_empty_text_draws_one_row() {
    assert_eq!(to_string(&[Station(0, "")]).unwrap(), "* \n");
}

#[test]
fn station_lines_follow_line_breaks() {
    let events = [
        StartTracks(&[0, 1, 2]),
        Station(1, "Hello\nWorld"),
        Station(0, "a\r\nb\n"),
        Station(2, "c\rd"),
        Station(9, "\n"),
    ];
    assert_eq!(
        to_string(&events).unwrap(),
        "| | |\n| * | Hello\n| | | World\n* | | a\n| | | b\n| | * c\rd\n| | | \n"
    );
}

#[test]
fn all_tracks_stopped_draws_empty_rails() {
    let (out, tracks) = render_with(&[StopTrack(0), NoEvent, Station(0, "x")]);
    assert_eq!(out, "\"\n\n x\n");
    assert!(tracks.is_empty());
}

#[test]
fn adjacent_join_from_the_left() {
    let (out, tracks) = render_with(&[StartTracks(&[0, 1, 2, 3]), JoinTrack(1, 2), NoEvent]);
    assert_eq!(out, "| | | |\n| |/ /\n| | |\n");
    assert_eq!(tracks, vec![0, 2, 3]);
}

#[test]
fn to_vec_is_utf8_of_to_string() {
    let events = [Station(0, "Gare d'Orsay \u{e9}\u{1f687}"), SplitTrack(0, 1)];
    let bytes = to_vec(&events).unwrap();
    let string = to_string(&events).unwrap();
    assert_eq!(bytes, string.as_bytes());
    assert_eq!(string, "* Gare d'Orsay \u{e9}\u{1f687}\n|\\\n");
}

#[test]
fn metro_assigns_fresh_ids() {
    let mut metro = Metro::new();
    let a = metro.new_track();
    let b = metro.new_track();
    let c = a.split(&mut metro);
    assert_eq!((a.id(), b.id(), c.id()), (0, 1, 2));
    assert!(metro.get_track(5).is_none());
    assert_eq!(metro.get_track(1).unwrap().id(), 1);
    let same = metro.new_track_with_id(1);
    assert_eq!(same.id(), 1);
    assert_eq!(metro.to_events().len(), 3);
    assert_eq!(metro.to_string().unwrap(), "| |\n|\\ \\\n");
}

#[test]
fn detached_station_marks_no_track() {
    let mut metro = Metro::new();
    let mut track = metro.new_track();
    metro.add_station("free");
    track.add_station(&mut metro, "on track");
    assert_eq!(metro.to_string().unwrap(), "| free\n* on track\n");
}

#[test]
fn batch_start_equals_its_fresh_members() {
    let a = to_string(&[StartTrack(3), StartTracks(&[1, 0, 3, 1, 2, 2]), JoinTrack(2, 0), NoEvent]).unwrap();
    let b = to_string(&[StartTrack(3), StartTracks(&[1, 2]), JoinTrack(2, 0), NoEvent]).unwrap();
    assert_eq!(a, b);
    assert_eq!(a, "| |\n| | | |\n| |_|/\n|/| |\n| | |\n");
}

#[test]
fn stop_track_draws_and_removes() {
    let mut tracks = vec![4, 5, 6];
    let mut out = String::new();
    metro::events::stop_track(&mut tracks, 5, &mut out);
    assert_eq!(out, "| \" |\n|  /\n");
    assert_eq!(tracks, vec![4, 6]);
    metro::events::stop_track(&mut tracks, 6, &mut out);
    assert_eq!(out, "| \" |\n|  /\n| \"\n");
    metro::events::stop_track(&mut tracks, 9, &mut out);
    assert_eq!(tracks, vec![4]);
}

#[test]
fn stopped_track_dangles_for_every_handle() {
    let mut metro = Metro::new();
    let a = metro.new_track_with_id(3);
    let b = metro.get_track(3).unwrap();
    let c = metro.new_track_with_id(4);
    c.join(&a, &mut metro);
    assert!(metro.get_track(4).is_none());
    a.stop(&mut metro);
    assert!(b.is_dangling(&metro));
    b.stop(&mut metro);
    assert_eq!(metro.to_events().len(), 4);
}
