use metro::Event::{JoinTrack, SplitTrack, Station, StopTrack};
use metro::{to_string, Metro};

const EXPECTED: &str = r#"* Station 1
* Station 2
* Station 3
|\
| * Station 4
| |\
| * | Station 5
| | * Station 6
* | | Station 7
| * | Station 8
| | * Station 9
| | |\
| | | |\
| | | | | Station 10 (Detached)
| |_|_|/
|/| | |
| | | * Station 11
| " | |
|  / /
* | | Station 12
| * | Station 13
| | * Station 14
| |/
|/|
| * Station 15
| "
* Station 16
"#;

#[test]
fn lib_example() {
    let events = [
        Station(0, "Station 1"),
        Station(0, "Station 2"),
        Station(0, "Station 3"),
        SplitTrack(0, 1),
        Station(1, "Station 4"),
        SplitTrack(1, 2),
        Station(1, "Station 5"),
        Station(2, "Station 6"),
        Station(0, "Station 7"),
        Station(1, "Station 8"),
        Station(2, "Station 9"),
        SplitTrack(2, 3),
        SplitTrack(3, 4),
        Station(5, "Station 10 (Detached)"),
        JoinTrack(4, 0),
        Station(3, "Station 11"),
        StopTrack(1),
        Station(0, "Station 12"),
        Station(2, "Station 13"),
        Station(3, "Station 14"),
        JoinTrack(3, 0),
        Station(2, "Station 15"),
        StopTrack(2),
        Station(0, "Station 16"),
    ];
    let string1 = to_string(&events).unwrap();

    assert_eq!(string1, EXPECTED);

    let mut metro = Metro::new();

    let mut track1 = metro.new_track();
    track1.add_station(&mut metro, "Station 1");
    track1.add_station(&mut metro, "Station 2");
    track1.add_station(&mut metro, "Station 3");

    let mut track2 = track1.split(&mut metro);
    track2.add_station(&mut metro, "Station 4");

    let mut track3 = track2.split(&mut metro);
    track2.add_station(&mut metro, "Station 5");
    track3.add_station(&mut metro, "Station 6");

    track1.add_station(&mut metro, "Station 7");
    track2.add_station(&mut metro, "Station 8");
    track3.add_station(&mut metro, "Station 9");

    let mut track4 = track3.split(&mut metro);
    let track5 = track4.split(&mut metro);

    metro.add_station("Station 10 (Detached)");

    track5.join(&track1, &mut metro);

    track4.add_station(&mut metro, "Station 11");

    track2.stop(&mut metro);

    track1.add_station(&mut metro, "Station 12");
    track3.add_station(&mut metro, "Station 13");
    track4.add_station(&mut metro, "Station 14");

    track4.join(&track1, &mut metro);

    track3.add_station(&mut metro, "Station 15");

    track3.stop(&mut metro);

    track1.add_station(&mut metro, "Station 16");

    let string2 = metro.to_string().unwrap();

    assert_eq!(string1, string2);
}

#[test]
fn dangling_track_comes_back_with_new_track_with_id() {
    let mut metro = Metro::new();
    let track1 = metro.new_track_with_id(0);
    let track2 = metro.get_track(0).unwrap();
    assert!(!track1.is_dangling(&metro));
    assert!(!track2.is_dangling(&metro));

    track1.stop(&mut metro);
    assert!(track2.is_dangling(&metro));
    assert!(metro.get_track(0).is_none());

    let track3 = metro.new_track_with_id(0);
    assert!(!track2.is_dangling(&metro));
    assert!(!track3.is_dangling(&metro));
    assert_eq!(track3.id(), 0);
}

#[test]
fn metro_events_round_trip() {
    let mut metro = Metro::new();
    let track = metro.new_track_with_id(7);
    let branch = track.split_with_id(&mut metro, 9);
    let again = track.split_with_id(&mut metro, 9);
    assert_eq!(again.id(), 9);
    branch.join(&track, &mut metro);
    track.stop(&mut metro);

    let events = metro.to_events();
    let rendered = to_string(&events).unwrap();
    assert_eq!(rendered, "| |\n| |\\\n| |/\n| \"\n");
    assert_eq!(metro.to_string().unwrap(), rendered);
    assert_eq!(metro.to_vec().unwrap(), rendered.as_bytes());
    assert_eq!(metro.into_events().len(), 4);
}
