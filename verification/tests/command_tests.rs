use eslrs::command::SendMessageConfig;
use eslrs::Command;

#[test]
fn test_command_builders_render_expected_text() {
    let c = Command::api("status");
    assert_eq!(c.verb(), "api ");
    assert_eq!(c.arg_text(), "status");

    let c = Command::filter("Unique-ID abc123");
    assert_eq!(c.verb(), "filter ");

    let c = Command::filter_delete("Unique-ID abc123");
    assert_eq!(c.verb(), "filter delete ");

    let c = Command::events("all");
    assert_eq!(c.verb(), "event plain ");

    let c = Command::events_json("CHANNEL_CREATE CHANNEL_DESTROY");
    assert_eq!(c.verb(), "event json ");
    assert_eq!(c.arg_text(), "CHANNEL_CREATE CHANNEL_DESTROY");

    let c = Command::events_disable();
    assert_eq!(c.verb(), "noevents ");
    assert_eq!(c.arg_text(), "");

    let c = Command::disconnect();
    assert_eq!(c.verb(), "exit ");
    assert_eq!(c.arg_text(), "");

    let c = Command::auth("ClueCon");
    assert_eq!(c.verb(), "auth ");
    assert_eq!(c.arg_text(), "ClueCon");

    let c = Command::sendevent("CUSTOM");
    assert_eq!(c.verb(), "sendevent ");

    let c = Command::from("api uptime");
    assert_eq!(c.verb(), "");
    assert_eq!(c.arg_text(), "api uptime");

    let owned = c.to_owned();
    assert_eq!(owned.verb(), "");
    assert_eq!(owned.arg_text(), "api uptime");
}

#[test]
fn test_bgapi_embeds_job_identifier() {
    let c = Command::bgapi("status", "some_uuid");
    assert_eq!(c.verb(), "bgapi ");
    assert_eq!(c.arg_text(), "status\nJob-UUID: some_uuid\n");
}

#[test]
fn test_execute_builds_sendmsg_body() {
    let c = Command::execute("chan-1", "playback", "/tmp/a.wav");
    assert_eq!(c.verb(), "sendmsg ");
    assert_eq!(
        c.arg_text(),
        "chan-1\nexecute-app-name: playback\ncall-command: execute\n\
content-length: 10\ncontent-type: text/plain\nasync: false\n\n/tmp/a.wav"
    );
}

#[test]
fn test_execute_aync_sets_delivery_options() {
    let c = Command::execute_aync("chan-1", "playback", "x", "job-7");
    assert_eq!(c.verb(), "sendmsg ");
    assert_eq!(
        c.arg_text(),
        "chan-1\nexecute-app-name: playback\ncall-command: execute\n\
content-length: 1\ncontent-type: text/plain\nasync: true\nevent-lock: true\n\
Job-UUID: job-7\n\nx"
    );
}

#[test]
fn test_execute_with_config_default_matches_execute() {
    let a = Command::execute("c", "app", "body");
    let b = Command::execute_with_config("c", "app", "body", SendMessageConfig::default());
    assert_eq!(a.arg_text(), b.arg_text());
    assert_eq!(a.verb(), b.verb());
}
