use bdredis::client2proxy::{exec_values, Client2ProxyService, TxnStep};
use bdredis::error::ServiceError;
use bdredis::master2slave::Master2SlaveService;
use bdredis::proxy2master::Proxy2MasterService;
use bdredis::proxy2slave::Proxy2SlaveService;
use bdredis::store::Db;

fn s(x: &str) -> String {
    x.to_string()
}

/// A master with its slaves, wired as the proxy sees them.
struct Cluster {
    proxy: Client2ProxyService,
    master: Proxy2MasterService,
    mdb: Db,
    slaves: Vec<Db>,
}

impl Cluster {
    fn new(n: usize) -> Cluster {
        Cluster {
            proxy: Client2ProxyService::new(n),
            master: Proxy2MasterService::new(),
            mdb: Db::new(),
            slaves: (0..n).map(|_| Db::new()).collect(),
        }
    }

    fn set(&mut self, key: &str, value: &str) {
        self.proxy.set(key);
        let (_, payload) = self.master.set(&mut self.mdb, s(key), s(value));
        let sync = Master2SlaveService::new();
        for sdb in self.slaves.iter_mut() {
            sync.aofsync(sdb, &payload).unwrap();
        }
    }

    fn get(&self, key: &str) -> Option<String> {
        let i = self.proxy.my_hash(key);
        Proxy2SlaveService::new().get(&self.slaves[i], key)
    }

    fn exec(&mut self, id: i64) -> Result<Vec<String>, ServiceError> {
        assert!(self.proxy.exec_is_runnable(id));
        let steps = self.proxy.exec(id)?;
        let mut reads = Vec::new();
        for step in steps {
            match step {
                TxnStep::Read(k) => reads.push(self.get(&k)),
                TxnStep::Write(k, v) => self.set(&k, &v),
            }
        }
        self.proxy.finish(id);
        Ok(exec_values(reads))
    }
}

#[test]
fn proxy_test() {
    let mut c = Cluster::new(3);
    for i in 0..1000 {
        c.set(&format!("key{i}"), &format!("value{i}"));
    }
    for i in 0..1000 {
        assert_eq!(c.get(&format!("key{i}")), Some(format!("value{i}")));
    }
}

#[test]
fn routing_is_stable() {
    let c = Cluster::new(4);
    for i in 0..100 {
        let k = format!("key{i}");
        let a = c.proxy.my_hash(&k);
        assert!(a < 4);
        assert_eq!(a, c.proxy.my_hash(&k));
    }
    let mut seen: Vec<usize> = (0..100).map(|i| c.proxy.my_hash(&format!("key{i}"))).collect();
    seen.sort();
    seen.dedup();
    assert!(seen.len() > 1);
}

#[test]
fn transaction_test() {
    let mut c = Cluster::new(3);
    let trans_id = c.proxy.multi();
    assert_eq!(trans_id, 0);
    assert_eq!(c.proxy.set_trans(trans_id, "hello", "world"), "set");
    c.proxy.set_trans(trans_id, "hello2", "world2");
    c.proxy.set_trans(trans_id, "hello3", "world3");
    assert_eq!(c.proxy.get_trans(trans_id, "hello"), "get");
    c.proxy.get_trans(trans_id, "hello2");
    c.proxy.get_trans(trans_id, "hello3");
    let values = c.exec(trans_id).unwrap();
    assert_eq!(&values[0], "world");
    assert_eq!(&values[1], "world2");
    assert_eq!(&values[2], "world3");
}

#[test]
fn transaction_steps_in_order() {
    let mut p = Client2ProxyService::new(2);
    p.set_trans(7, "a", "1");
    p.get_trans(7, "a");
    p.set_trans(7, "b", "get");
    let steps = p.exec(7).unwrap();
    assert_eq!(
        steps,
        vec![TxnStep::Write(s("a"), s("1")), TxnStep::Read(s("a")), TxnStep::Read(s("b"))]
    );
    // The transaction stays open until its steps have run.
    assert_eq!(p.multi(), 1);
    p.finish(7);
    assert_eq!(p.exec(7), Err(ServiceError::NoResult));
    assert_eq!(p.multi(), 0);
}

#[test]
fn watched_write_violates() {
    let mut c = Cluster::new(2);
    let id = c.proxy.multi();
    assert_eq!(c.proxy.watch(id, "k"), "Success");
    c.proxy.set_trans(id, "x", "1");
    c.set("k", "other");
    c.proxy.set_trans(id, "y", "2");
    assert_eq!(c.proxy.multi(), 1);
    let r = c.exec(id);
    assert_eq!(r, Err(ServiceError::WatchViolated));
    assert_eq!(ServiceError::WatchViolated.message(), "Watch vialated");
    assert_eq!(c.get("x"), None);
    assert_eq!(c.proxy.multi(), 0);
    // The watch is gone with the transaction.
    let id2 = c.proxy.multi();
    c.proxy.set_trans(id2, "z", "3");
    c.set("k", "again");
    assert_eq!(c.exec(id2), Ok(vec![]));
    assert_eq!(c.get("z"), Some(s("3")));
}

#[test]
fn watched_write_before_open() {
    let mut p = Client2ProxyService::new(1);
    p.watch(3, "k");
    p.set("k");
    assert_eq!(p.multi(), 1);
    assert_eq!(p.exec(3), Err(ServiceError::WatchViolated));
    assert_eq!(p.exec(3), Err(ServiceError::NoResult));
    assert_eq!(ServiceError::NoResult.message(), "NO Result");
}

#[test]
fn unrunnable_transaction_detected() {
    let mut p = Client2ProxyService::new(1);
    p.set_trans(1, "", "");
    assert!(!p.exec_is_runnable(1));
    assert!(p.exec_is_runnable(2));
}

#[test]
fn exec_values_keep_hits() {
    assert_eq!(
        exec_values(vec![Some(s("a")), None, Some(s("b"))]),
        vec![s("a"), s("b")]
    );
    assert_eq!(exec_values(vec![]), Vec::<String>::new());
}
