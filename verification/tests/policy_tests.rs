use meme_guard::detector::AdminOutcome;
use meme_guard::detector::Detector;
use meme_guard::detector::ModerationConfig;
use meme_guard::detector::UsageReply;
use meme_guard::detector::check_command_applies;
use meme_guard::detector::normal_message_skipped;
use meme_guard::policy::ActivityLog;
use meme_guard::policy::UserInfo;
use meme_guard::policy::Whitelist;

fn config() -> ModerationConfig {
    ModerationConfig {
        trigger: 7800,
        start_cmd: ".lostart".to_string(),
        start_msg: "moderation on".to_string(),
        stop_cmd: ".lostop".to_string(),
        stop_msg: "moderation off".to_string(),
        reply_output_img_cmd: "check".to_string(),
        reply_msg: "do not post that".to_string(),
        my_times_cmd: "my count".to_string(),
        is_reply_trigger: true,
        is_delete_message: true,
        ban_cooldown: 60,
        ban_duration: 60,
        ban_msg: "enough".to_string(),
    }
}

fn detector() -> Detector {
    Detector::new(config(), Some(1), Whitelist::new(), ActivityLog::new())
}

// A trigger one second before the cooldown window closes bans; one at the
// window's edge does not.
#[test]
fn cooldown_boundary() {
    let t: u64 = 1000;
    let c: u64 = 60;
    let mut log = ActivityLog::new();
    assert!(!log.record_trigger(7, 42, t, c));
    assert!(log.record_trigger(7, 42, t + c - 1, c));

    let mut fresh = ActivityLog::new();
    assert!(!fresh.record_trigger(7, 42, t, c));
    assert!(!fresh.record_trigger(7, 42, t + c, c));
}

// A user who never triggered carries an epoch (zero) timestamp, so an
// early trigger still inside the window from zero bans.
#[test]
fn first_trigger_uses_epoch_default() {
    let mut log = ActivityLog::new();
    assert_eq!(log.last_trigger(7, 42), 0);
    assert!(log.record_trigger(7, 42, 59, 60));
    assert_eq!(log.last_trigger(7, 42), 59);
}

// Counters accumulate per group and overall, and are reported as the
// usage enquiry sees them.
#[test]
fn counters_accumulate() {
    let mut log = ActivityLog::new();
    assert_eq!(log.my_times(7, 42), None);
    log.record_trigger(7, 42, 100, 60);
    log.record_trigger(7, 42, 1000, 60);
    log.record_trigger(7, 43, 2000, 60);
    assert_eq!(log.my_times(7, 42), Some((2, 3)));
    assert_eq!(log.my_times(7, 43), Some((1, 3)));
    assert_eq!(log.my_times(7, 44), Some((0, 3)));
    assert_eq!(log.my_times(8, 42), None);
}

// The bare record update: total, group total and timestamp move together.
#[test]
fn update_time_bumps_all_three() {
    let mut info = UserInfo::new();
    info.update_time(42, 500);
    info.update_time(42, 900);
    info.update_time(43, 1000);
    assert_eq!(info.total_times, 3);
    assert_eq!(info.group_total_times.get(&42), Some(&2));
    assert_eq!(info.group_total_times.get(&43), Some(&1));
    assert_eq!(info.last_timestamp.get(&42), Some(&900));
    assert_eq!(info.last_timestamp.get(&43), Some(&1000));
}

// A group absent from the whitelist behaves exactly like one set to
// false, and only an explicit true moderates.
#[test]
fn whitelist_absent_equals_false() {
    let mut w = Whitelist::new();
    assert!(!w.is_moderated(42));
    w.set(43, false);
    assert_eq!(w.is_moderated(42), w.is_moderated(43));
    w.set(42, true);
    assert!(w.is_moderated(42));
    w.set(42, false);
    assert!(!w.is_moderated(42));
}

// Admin commands flip the whitelist only in groups and only on an exact
// match.
#[test]
fn admin_commands_gate_the_group() {
    let mut d = detector();
    assert_eq!(d.handle_admin_command(&".lostart".to_string(), None), AdminOutcome::Ignored);
    assert!(!d.whitelist.is_moderated(42));
    assert_eq!(
        d.handle_admin_command(&".lostart".to_string(), Some(42)),
        AdminOutcome::Started
    );
    assert!(d.whitelist.is_moderated(42));
    assert_eq!(
        d.handle_admin_command(&" .lostart".to_string(), Some(42)),
        AdminOutcome::Ignored
    );
    assert_eq!(
        d.handle_admin_command(&".lostop".to_string(), Some(42)),
        AdminOutcome::Stopped
    );
    assert!(!d.whitelist.is_moderated(42));
}

// The trigger threshold is inclusive: 0.78 against a 0.78 threshold
// counts, 0.7799 does not.
#[test]
fn trigger_threshold_is_inclusive() {
    let d = detector();
    assert!(d.triggered(7800));
    assert!(!d.triggered(7799));
    assert!(d.any_triggered(&vec![100, 7800, 50]));
    assert!(!d.any_triggered(&vec![100, 7799, 50]));
    assert!(!d.any_triggered(&Vec::new()));
}

// Policing a confirmed trigger decides the ban by the detector's own
// cooldown and leaves the configuration untouched.
#[test]
fn police_trigger_applies_cooldown() {
    let mut d = detector();
    assert!(!d.police_trigger(7, 42, 1000));
    assert!(d.police_trigger(7, 42, 1059));
    assert!(!d.police_trigger(7, 42, 1119));
    assert_eq!(d.last_trigger(7, 42), 1119);
    assert_eq!(d.config.ban_cooldown, 60);
}

// The usage enquiry answers only the exact command inside a group.
#[test]
fn my_times_replies_exactly() {
    let mut d = detector();
    let cmd = "my count".to_string();
    assert_eq!(d.my_times(&cmd, None, 7), UsageReply::NotApplicable);
    assert_eq!(d.my_times(&"other".to_string(), Some(42), 7), UsageReply::NotApplicable);
    assert_eq!(d.my_times(&cmd, Some(42), 7), UsageReply::NoRecord);
    d.police_trigger(7, 42, 1000);
    assert_eq!(
        d.my_times(&cmd, Some(42), 7),
        UsageReply::Times { group_times: 1, total_times: 1 }
    );
}

// The check command fires only when the text equals both detectors'
// command strings; ordinary messages skip either command.
#[test]
fn command_gates() {
    let check = "check".to_string();
    let other = "scan".to_string();
    assert!(check_command_applies(&check, &check, &check));
    assert!(!check_command_applies(&check, &check, &other));
    assert!(normal_message_skipped(&check, &check, &other));
    assert!(normal_message_skipped(&other, &check, &other));
    assert!(!normal_message_skipped(&"hello".to_string(), &check, &other));
}
