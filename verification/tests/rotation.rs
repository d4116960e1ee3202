use ami_logger::clock::get_current_file_name;
use ami_logger::date::{civil_from_days, file_name_for_millis};
use ami_logger::sink::{log_path, server_dir, SinkFileManager};

// 2022-03-05T00:00:00Z
const MS_2022_03_05: i64 = 1_646_438_400_000;

#[test]
fn civil_dates_from_day_numbers() {
    assert_eq!(civil_from_days(0), (1970, 1, 1));
    assert_eq!(civil_from_days(30), (1970, 1, 31));
    assert_eq!(civil_from_days(31), (1970, 2, 1));
    assert_eq!(civil_from_days(365), (1971, 1, 1));
    // 1972 is the first leap year after the epoch.
    assert_eq!(civil_from_days(365 * 2 + 31 + 28), (1972, 2, 29));
    assert_eq!(civil_from_days(11016), (2000, 2, 29));
    assert_eq!(civil_from_days(19056), (2022, 3, 5));
}

#[test]
fn file_names_embed_the_utc_date() {
    assert_eq!(file_name_for_millis(0), b"events_1970-01-01.log".to_vec());
    assert_eq!(file_name_for_millis(MS_2022_03_05), b"events_2022-03-05.log".to_vec());
    // One millisecond before the next midnight still belongs to the day.
    assert_eq!(
        file_name_for_millis(MS_2022_03_05 + 86_400_000 - 1),
        b"events_2022-03-05.log".to_vec()
    );
    assert_eq!(
        file_name_for_millis(MS_2022_03_05 + 86_400_000),
        b"events_2022-03-06.log".to_vec()
    );
}

#[test]
fn paths_join_directory_source_and_name() {
    assert_eq!(
        log_path("logs", None, b"events_2022-03-05.log"),
        b"logs/events_2022-03-05.log".to_vec()
    );
    assert_eq!(
        log_path("logs", Some("serverA"), b"events_2022-03-05.log"),
        b"logs/serverA/events_2022-03-05.log".to_vec()
    );
    assert_eq!(server_dir("logs", "serverA"), b"logs/serverA".to_vec());
}

#[test]
fn shared_sink_rotates_once_per_day() {
    let mut sink = SinkFileManager::new(String::from("logs"), false, vec![]);
    let src = String::from("serverA");

    let first_plan = sink.plan_event(&src, MS_2022_03_05);
    assert_eq!(first_plan.file_key, "all");
    assert_eq!(first_plan.opens.len(), 1);
    assert_eq!(first_plan.opens[0].0, "all");
    assert_eq!(first_plan.opens[0].1, b"logs/events_2022-03-05.log".to_vec());

    // Same day: nothing to reopen.
    let second_plan = sink.plan_event(&src, MS_2022_03_05 + 1000);
    assert!(second_plan.opens.is_empty());
    assert_eq!(second_plan.file_key, "all");

    // Crossing midnight rotates to a distinct file named for the new day.
    let third_plan = sink.plan_event(&src, MS_2022_03_05 + 86_400_000);
    assert_eq!(third_plan.opens.len(), 1);
    assert_eq!(third_plan.opens[0].1, b"logs/events_2022-03-06.log".to_vec());
    assert_ne!(first_plan.opens[0].1, third_plan.opens[0].1);
}

#[test]
fn per_server_sink_opens_one_file_per_source() {
    let names = vec![String::from("serverA"), String::from("serverB")];
    let mut sink = SinkFileManager::new(String::from("logs"), true, names);
    let src = String::from("serverB");

    let p = sink.plan_event(&src, MS_2022_03_05);
    assert_eq!(p.file_key, "serverB");
    assert_eq!(p.opens.len(), 2);
    assert_eq!(p.opens[0].0, "serverA");
    assert_eq!(p.opens[0].1, b"logs/serverA/events_2022-03-05.log".to_vec());
    assert_eq!(p.opens[1].0, "serverB");
    assert_eq!(p.opens[1].1, b"logs/serverB/events_2022-03-05.log".to_vec());
}

#[test]
fn current_file_name_has_the_documented_shape() {
    let name = get_current_file_name();
    assert!(name.starts_with(b"events_"));
    assert!(name.ends_with(b".log"));
    // events_YYYY-MM-DD.log
    assert_eq!(name.len(), 21);
    assert_eq!(name[11], b'-');
    assert_eq!(name[14], b'-');
}
