use bdredis::aofmgr::{request_kind_of, try_log_line, AOFManager, RequestKind};
use bdredis::error::ServiceError;
use bdredis::master2slave::Master2SlaveService;
use bdredis::ping::ping;
use bdredis::proxy2master::Proxy2MasterService;
use bdredis::proxy2slave::Proxy2SlaveService;
use bdredis::slave2master::Slave2MasterService;
use bdredis::store::Db;

fn s(x: &str) -> String {
    x.to_string()
}

fn set_debug(key: &str, value: &str) -> String {
    format!("SetRequest {{ key: {:?}, value: {:?} }}", key, value)
}

fn del_debug(keys: &[&str]) -> String {
    format!("DelRequest {{ keys: {:?} }}", keys)
}

#[test]
fn ping_test() {
    assert_eq!(ping(Some(String::from("abc"))), "abc");
    assert_eq!(ping(None), "PONG");
    assert_eq!(ping(Some(String::from("   hello\nworld   "))), "   hello\nworld   ");
    let master = Proxy2MasterService::new();
    let slave = Proxy2SlaveService::new();
    assert_eq!(master.ping(None), "PONG");
    assert_eq!(slave.ping(Some(s("x"))), "x");
}

#[test]
fn get_set_del_test() {
    let master = Proxy2MasterService::new();
    let mut db = Db::new();
    master.set(&mut db, String::from("abc"), String::from("def"));
    master.set(&mut db, String::from("hello"), String::from("world"));

    assert_eq!(master.get(&db, "abc"), Some(String::from("def")));
    assert_eq!(master.get(&db, "hello"), Some(String::from("world")));
    assert_eq!(master.get(&db, "abd"), None);

    master.set(&mut db, String::from("abc"), String::from("hij"));
    master.set(&mut db, String::from("aaa"), String::from("bbb"));
    assert_eq!(master.get(&db, "abc"), Some(String::from("hij")));

    assert_eq!(master.del(&mut db, &vec![String::from("abc"), String::from("aaa")]).0, 2);
    assert_eq!(master.get(&db, "abc"), None);
    assert_eq!(master.get(&db, "aaa"), None);

    assert_eq!(master.del(&mut db, &vec![String::from("hello"), String::from("world")]).0, 1);
    assert_eq!(master.get(&db, "hello"), None);

    assert_eq!(master.del(&mut db, &vec![]).0, 0);
}

#[test]
fn master_write_records() {
    let master = Proxy2MasterService::new();
    let mut db = Db::new();
    let (status, record) = master.set(&mut db, s("k"), s("v"));
    assert_eq!(status, "OK");
    assert_eq!(record, "set k v");
    let (n, record) = master.del(&mut db, &vec![s("k"), s("k"), s("z")]);
    assert_eq!(n, 1);
    assert_eq!(record, "del k k z");
    let (n, record) = master.del(&mut db, &vec![]);
    assert_eq!(n, 0);
    assert_eq!(record, "del");
}

#[test]
fn aof_test_stage1() {
    let master = Proxy2MasterService::new();
    let mut db = Db::new();
    let mut aof = AOFManager::new("/data", "appendonly.aof");
    assert_eq!(aof.file_name(), "/data/appendonly.aof");
    for (k, v) in [("abc", "def"), ("hello", "world"), ("a", "123"), ("abc", "aaa")] {
        master.set(&mut db, s(k), s(v));
        assert_eq!(aof.append(&set_debug(k, v)), Ok(()));
    }
    master.del(&mut db, &vec![s("hello")]);
    assert_eq!(aof.append(&del_debug(&["hello"])), Ok(()));
    assert_eq!(
        aof.flush(),
        "set abc def\nset hello world\nset a 123\nset abc aaa\ndel hello\n"
    );
    assert_eq!(aof.pending(), "");
}

#[test]
fn aof_test_stage2() {
    let mut aof = AOFManager::new("/data", "appendonly.aof");
    for (k, v) in [("abc", "def"), ("hello", "world"), ("a", "123"), ("abc", "aaa")] {
        aof.append(&set_debug(k, v)).unwrap();
    }
    aof.append(&del_debug(&["hello"])).unwrap();
    let contents = aof.flush();

    let restarted = AOFManager::new("/data", "appendonly.aof");
    let mut db = Db::new();
    assert!(!AOFManager::contents_is_malformed(&contents));
    assert_eq!(restarted.init_db(&contents, &mut db), Ok(()));
    let master = Proxy2MasterService::new();
    assert_eq!(master.get(&db, "abc"), Some(String::from("aaa")));
    assert_eq!(master.get(&db, "a"), Some(String::from("123")));
    assert_eq!(master.get(&db, "hello"), None);
}

#[test]
fn aof_parse_requests() {
    assert_eq!(AOFManager::parse(&set_debug("abc", "def")), Ok(s("set abc def")));
    assert_eq!(AOFManager::parse(&del_debug(&["a", "b", "c"])), Ok(s("del a b c")));
    assert_eq!(AOFManager::parse("GetRequest { key: \"abc\" }"), Ok(s("get abc")));
    assert_eq!(
        AOFManager::parse("Request: SetRequest { key: \"x\", value: \"y\" } sent"),
        Ok(s("set x y"))
    );
    // No request in the text.
    assert_eq!(AOFManager::parse("PingRequest { payload: None }"), Err(()));
    // An empty key list logs a bare delete.
    assert_eq!(AOFManager::parse(&del_debug(&[])), Ok(s("del")));
}

#[test]
fn aof_empty_del_appended_and_replayed() {
    let master = Proxy2MasterService::new();
    let mut mdb = Db::new();
    let mut aof = AOFManager::new("/data", "appendonly.aof");
    master.set(&mut mdb, s("k"), s("v"));
    aof.append(&set_debug("k", "v")).unwrap();
    let (n, _) = master.del(&mut mdb, &vec![]);
    assert_eq!(n, 0);
    assert_eq!(aof.append(&del_debug(&[])), Ok(()));
    let contents = aof.flush();
    assert_eq!(contents, "set k v\ndel\n");
    let mut db = Db::new();
    assert_eq!(aof.init_db(&contents, &mut db), Ok(()));
    assert_eq!(db.get("k"), Some(s("v")));
}

#[test]
fn aof_log_line_from_groups() {
    let caps = Some(vec![Some(s("whole")), Some(s("\"k\"")), Some(s("\"v\""))]);
    assert_eq!(AOFManager::log_line(RequestKind::SetRequest, &caps), "set k v");
    assert_eq!(AOFManager::log_line(RequestKind::SetRequest, &None), "set");
    assert_eq!(AOFManager::log_line(RequestKind::GetRequest, &None), "get");
    let caps = Some(vec![Some(s("whole")), Some(s("\"a\", \"b\""))]);
    assert_eq!(AOFManager::log_line(RequestKind::DelRequest, &caps), "del a b");
    let caps = Some(vec![Some(s("whole")), Some(s("\"g\""))]);
    assert_eq!(AOFManager::log_line(RequestKind::GetRequest, &caps), "get g");
}

#[test]
fn aof_append_refused_keeps_buffer() {
    let mut aof = AOFManager::new("base", "f");
    aof.append(&set_debug("a", "1")).unwrap();
    assert_eq!(aof.append("nothing here"), Err(()));
    assert_eq!(aof.pending(), "set a 1\n");
}

#[test]
fn aof_replay_stops_at_blank_line() {
    let aof = AOFManager::new("b", "f");
    let mut db = Db::new();
    assert_eq!(aof.init_db("set a 1\n\nset b 2\n", &mut db), Ok(()));
    assert_eq!(db.get("a"), Some(s("1")));
    assert_eq!(db.get("b"), None);
}

#[test]
fn aof_replay_whitespace_and_del() {
    let aof = AOFManager::new("b", "f");
    let mut db = Db::new();
    assert_eq!(aof.init_db("  set\ta   1 extra\r\nset b 2\ndel a  c\n", &mut db), Ok(()));
    assert_eq!(db.get("a"), None);
    assert_eq!(db.get("b"), Some(s("2")));
}

#[test]
fn aof_replay_unrecognized_line() {
    let aof = AOFManager::new("b", "f");
    let mut db = Db::new();
    let r = aof.init_db("set a 1\nget a\nset b 2\n", &mut db);
    assert_eq!(r, Err(ServiceError::UnrecognizedAofLine));
    assert_eq!(r.unwrap_err().message(), "Unrecognized request in AOF");
    assert_eq!(db.get("a"), Some(s("1")));
    assert_eq!(db.get("b"), None);
}

#[test]
fn aof_replay_malformed_detected() {
    assert!(AOFManager::contents_is_malformed("set a\n"));
    assert!(!AOFManager::contents_is_malformed("oops\nset a\n"));
    assert!(!AOFManager::contents_is_malformed("\nset a\n"));
}

#[test]
fn ms_test() {
    let master = Proxy2MasterService::new();
    let sync = Master2SlaveService::new();
    let slave = Proxy2SlaveService::new();
    let mut mdb = Db::new();
    let mut sdbs = vec![Db::new(), Db::new(), Db::new()];

    let mut payloads = Vec::new();
    for (k, v) in [("hello", "world"), ("aaa", "bbb"), ("123", "456"), ("abc", "def")] {
        payloads.push(master.set(&mut mdb, s(k), s(v)).1);
    }
    payloads.push(master.del(&mut mdb, &vec![s("abc")]).1);
    for sdb in sdbs.iter_mut() {
        for p in &payloads {
            assert_eq!(sync.aofsync(sdb, p), Ok(s("aofsync finish")));
        }
    }

    for _ in &sdbs {
        let e = slave.set().expect_err("Should be error");
        assert_eq!(e.message(), "Can only send SET to master");
        let e = slave.del().expect_err("Should be error");
        assert_eq!(e.message(), "Can only send DEL to master");
    }

    assert_eq!(master.get(&mdb, "hello"), Some(String::from("world")));
    assert_eq!(master.get(&mdb, "aaa"), Some(String::from("bbb")));
    assert_eq!(master.get(&mdb, "123"), Some(String::from("456")));
    assert_eq!(master.get(&mdb, "abc"), None);

    for sdb in sdbs.iter() {
        assert_eq!(slave.get(sdb, "hello"), Some(String::from("world")));
        assert_eq!(slave.get(sdb, "aaa"), Some(String::from("bbb")));
        assert_eq!(slave.get(sdb, "123"), Some(String::from("456")));
        assert_eq!(slave.get(sdb, "abc"), None);
    }
}

#[test]
fn aofsync_unrecognized_line() {
    let sync = Master2SlaveService::new();
    let mut db = Db::new();
    let r = sync.aofsync(&mut db, "set a 1\nput b 2\nset c 3");
    assert_eq!(r, Err(ServiceError::UnrecognizedAofRequest));
    assert_eq!(r.unwrap_err().message(), "Unrecognized AOF request");
    assert_eq!(db.get("a"), Some(s("1")));
    assert_eq!(db.get("c"), None);
    // A blank line is refused too.
    let mut db = Db::new();
    assert_eq!(sync.aofsync(&mut db, ""), Err(ServiceError::UnrecognizedAofRequest));
}

#[test]
fn aofsync_splits_on_single_spaces() {
    let sync = Master2SlaveService::new();
    let mut db = Db::new();
    assert_eq!(sync.aofsync(&mut db, "set  v"), Ok(s("aofsync finish")));
    assert_eq!(db.get(""), Some(s("v")));
    assert_eq!(sync.aofsync(&mut db, "set k v w\ndel "), Ok(s("aofsync finish")));
    assert_eq!(db.get("k"), Some(s("v")));
    assert_eq!(db.get(""), None);
    assert!(Master2SlaveService::payload_is_malformed("set onlykey"));
    assert!(!Master2SlaveService::payload_is_malformed("set a b\ndel a"));
    assert_eq!(sync.rdbsync(), Err(ServiceError::RdbSyncUnsupported));
}

#[test]
fn transaction_refused_outside_proxy() {
    let master = Proxy2MasterService::new();
    let slave = Proxy2SlaveService::new();
    assert_eq!(master.set_trans(), Err(ServiceError::NotImplemented));
    assert_eq!(master.multi(), Err(ServiceError::NotImplemented));
    assert_eq!(slave.exec(), Err(ServiceError::NotImplemented));
    assert_eq!(slave.watch().unwrap_err().message(), "NOT IMPLEMENTED");
}

#[test]
fn slave_registry() {
    let mut reg: Slave2MasterService<u32> = Slave2MasterService::new();
    assert_eq!(reg.register(Some((s("127.0.0.1:1"), 1))), Ok(s("register success")));
    assert_eq!(reg.register(Some((s("127.0.0.1:2"), 2))), Ok(s("register success")));
    assert_eq!(reg.register(Some((s("127.0.0.1:1"), 3))), Ok(s("register success")));
    assert_eq!(reg.register(None), Err(ServiceError::EmptyRegister));
    let mut clients: Vec<u32> = reg.slaves().iter().map(|(_, c)| *c).collect();
    clients.sort();
    assert_eq!(clients, vec![2, 3]);
    assert_eq!(reg.logout(Some(s("127.0.0.1:2"))), Ok(s("logout success")));
    assert_eq!(reg.logout(None).unwrap_err().message(), "Empty logout request");
    assert_eq!(reg.slaves().len(), 1);
}

#[test]
fn error_texts() {
    assert_eq!(ServiceError::Failed.message(), "failed");
    assert_eq!(ServiceError::EmptyRegister.message(), "Empty register request");
    assert_eq!(ServiceError::RdbSyncUnsupported.message(), "TODO");
}

#[test]
fn db_basics() {
    let mut db = Db::new();
    assert!(!db.contains("x"));
    db.set(s("x"), s("1"));
    assert!(db.contains("x"));
    assert!(db.remove("x"));
    assert!(!db.remove("x"));
}

#[test]
fn aof_kind_and_line_from_groups() {
    let t: Vec<char> = "SetRequest { key: \"a\" }".chars().collect();
    assert_eq!(request_kind_of(&t), Some(RequestKind::SetRequest));
    let t: Vec<char> = "DelRequest".chars().collect();
    assert_eq!(request_kind_of(&t), Some(RequestKind::DelRequest));
    let t: Vec<char> = "Ping".chars().collect();
    assert_eq!(request_kind_of(&t), None);
    let caps = Some(vec![Some(s("whole")), Some(s("\"x\", \"y\""))]);
    assert_eq!(try_log_line(RequestKind::DelRequest, &caps), Some(s("del x y")));
    assert_eq!(try_log_line(RequestKind::DelRequest, &None), Some(s("del")));
    assert_eq!(try_log_line(RequestKind::SetRequest, &None), Some(s("set")));
}
