use owntrack_rs::db::TrackId;
use owntrack_rs::mqtt::{get_user_device_from_meshtastic_topic, get_user_device_from_topic};

fn pair(user: &str, device: &str) -> Option<(String, String)> {
    Some((user.to_string(), device.to_string()))
}

#[test]
fn owntracks_topic_resolves() {
    assert_eq!(get_user_device_from_topic("owntracks/alice/phone1"), pair("alice", "phone1"));
}

#[test]
fn topic_with_two_segments_does_not_resolve() {
    assert_eq!(get_user_device_from_topic("owntracks/alice"), None);
    assert_eq!(get_user_device_from_topic("owntracks"), None);
    assert_eq!(get_user_device_from_topic(""), None);
}

#[test]
fn longer_topic_gives_its_last_segment_as_device() {
    assert_eq!(
        get_user_device_from_topic("owntracks/bob/msh/2/e/LongFast/!da657310"),
        pair("bob", "!da657310")
    );
    assert_eq!(get_user_device_from_topic("a/b/c/"), pair("b", ""));
    assert_eq!(get_user_device_from_topic("//"), pair("", ""));
}

#[test]
fn meshtastic_topic_of_eight_segments() {
    assert_eq!(
        get_user_device_from_meshtastic_topic("owntracks/bob/msh/tracker1/2/e/LongFast/!da657310"),
        pair("bob", "tracker1")
    );
}

#[test]
fn meshtastic_topic_of_five_segments() {
    assert_eq!(
        get_user_device_from_meshtastic_topic("owntracks/bob/msh/LongFast/!da657310"),
        pair("bob", "!da657310")
    );
}

#[test]
fn meshtastic_topic_of_other_shape_does_not_resolve() {
    assert_eq!(get_user_device_from_meshtastic_topic("owntracks/alice/phone1"), None);
    assert_eq!(get_user_device_from_meshtastic_topic("a/b/c/d/e/f"), None);
    assert_eq!(get_user_device_from_meshtastic_topic("a/b/c/d/e/f/g/h/i"), None);
}

#[test]
fn track_id_date_is_the_text_before_the_space() {
    let id = TrackId {
        user: "alice".to_string(),
        device: "phone1".to_string(),
        ts_start: "2025-02-19 06:46:54+00".to_string(),
    };
    assert_eq!(id.date(), "2025-02-19");
    let id = TrackId { user: String::new(), device: String::new(), ts_start: "2025-02-19".to_string() };
    assert_eq!(id.date(), "2025-02-19");
    let id = TrackId { user: String::new(), device: String::new(), ts_start: " x".to_string() };
    assert_eq!(id.date(), "");
}
