use service_demo::config::{
    submit_timeout_secs, ChildProcConfig, Config, ConfigStore, LogConfig, PgSqlConfig,
    ServerConfig,
};
use service_demo::error::Error;
use service_demo::post::PostQuery;
use service_demo::resp::{ok_resp, IdData, ListData, Response, Void};
use service_demo::text::{get_ids_from_str, remove_enter, trim_end_inplace};

fn conf(level: &str, timeout: u64) -> Config {
    Config {
        server: ServerConfig { run_local: true, port: Some(9000) },
        log: LogConfig { level: level.to_owned() },
        db: PgSqlConfig { url: "postgres://x".to_owned(), log_mode: false, auto_migrate: true },
        py: ChildProcConfig { timeout_secs: timeout, read_xls_workers: 2, read_xls_inter_ms: None },
    }
}

#[test]
fn ids_are_parsed_from_commas() {
    assert_eq!(get_ids_from_str("1,2,3"), vec![1, 2, 3]);
    assert_eq!(get_ids_from_str("4,x,,-5,+6, 7"), vec![4, -5, 6]);
    assert_eq!(get_ids_from_str(""), Vec::<i32>::new());
    assert_eq!(get_ids_from_str("2147483647,2147483648,-2147483648,-2147483649"), vec![2147483647, -2147483648]);
    assert_eq!(get_ids_from_str("-,+,12a"), Vec::<i32>::new());
}

#[test]
fn newlines_are_removed() {
    assert_eq!(remove_enter("a\nb\n"), "ab");
    assert_eq!(remove_enter("plain"), "plain");
}

#[test]
fn trailing_white_space_is_trimmed() {
    let mut s = "  x y \t\r\n".to_owned();
    trim_end_inplace(&mut s);
    assert_eq!(s, "  x y");
    let mut u = "z\u{3000}\u{a0}".to_owned();
    trim_end_inplace(&mut u);
    assert_eq!(u, "z");
    let mut e = String::new();
    trim_end_inplace(&mut e);
    assert_eq!(e, "");
}

#[test]
fn timeout_falls_back_to_five_seconds() {
    assert_eq!(submit_timeout_secs(&conf("", 0).py), 5);
    assert_eq!(submit_timeout_secs(&conf("", 30).py), 30);
}

#[test]
fn config_store_defaults_level_and_reports_old() {
    let mut store: ConfigStore<u8> = ConfigStore::new(conf("", 0));
    assert_eq!(store.peek_config().log.level, "info");
    assert!(store.is_local());
    assert_eq!(store.submit_timeout(), 5);
    store.add_callback(7);
    assert_eq!(store.callbacks, vec![7]);
    let old = store.set_config(conf("debug", 12), false).unwrap();
    assert_eq!(old.log.level, "info");
    assert_eq!(store.peek_config().log.level, "debug");
    assert_eq!(store.submit_timeout(), 12);
    assert!(store.set_config(conf("warn", 1), true).is_none());
}

#[test]
fn responses_carry_codes_and_messages() {
    let r = Response::new(IdData { id: 3 });
    assert_eq!((r.code, r.msg.as_str(), r.data.id), (200, "ok", 3));
    let b = Response::new_bad(Void {});
    assert_eq!((b.code, b.msg.as_str()), (400, "bad request"));
    let e = Response::new_err(Void {}, String::new());
    assert_eq!((e.code, e.msg.as_str()), (500, "error"));
    let e = Response::new_err(Void {}, "SubmitTimeout".to_owned());
    assert_eq!(e.msg, "SubmitTimeout");
    assert_eq!(ok_resp().code, 200);
    let l: ListData<i32> = ListData::from((vec![1, 2], 9));
    assert_eq!((l.list, l.total), (vec![1, 2], 9));
}

#[test]
fn paging_defaults() {
    let q = PostQuery { title: None, content: None, page: None, size: None };
    assert_eq!(q.paging(), (0, 10));
    let q = PostQuery { title: None, content: None, page: Some(3), size: Some(20) };
    assert_eq!(q.paging(), (2, 20));
    let q = PostQuery { title: None, content: None, page: Some(0), size: None };
    assert_eq!(q.paging(), (0, 10));
}

#[test]
fn string_converts_to_other_error() {
    assert!(matches!(Error::from("boom".to_owned()), Error::Other(m) if m == "boom"));
}
