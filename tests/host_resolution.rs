use wand::executor::{Executor, PlayResult};
use wand::inventory::{Group, Host, Inventory};
use wand::vars::StrMap;

#[test]
fn resolve_hosts_all() {
    let mut inv = Inventory::default();
    inv.hosts.insert("host1".to_string(), Host {
        name: "host1".to_string(),
        vars: StrMap::new(),
    });
    inv.hosts.insert("host2".to_string(), Host {
        name: "host2".to_string(),
        vars: StrMap::new(),
    });

    let exec = Executor::new(inv);
    let hosts = exec.resolve_hosts("all");
    assert_eq!(hosts.len(), 2);
}

#[test]
fn resolve_hosts_single() {
    let mut inv = Inventory::default();
    inv.hosts.insert("host1".to_string(), Host {
        name: "host1".to_string(),
        vars: StrMap::new(),
    });

    let exec = Executor::new(inv);
    let hosts = exec.resolve_hosts("host1");
    assert_eq!(hosts, vec!["host1".to_string()]);
}

#[test]
fn resolve_hosts_group() {
    let mut inv = Inventory::default();
    inv.hosts.insert("web1".to_string(), Host {
        name: "web1".to_string(),
        vars: StrMap::new(),
    });
    inv.groups.insert("webservers".to_string(), Group {
        name: "webservers".to_string(),
        hosts: vec!["web1".to_string()],
        children: vec![],
        vars: StrMap::new(),
    });

    let exec = Executor::new(inv);
    let hosts = exec.resolve_hosts("webservers");
    assert_eq!(hosts, vec!["web1".to_string()]);
}

#[test]
fn play_result_default() {
    let result = PlayResult::default();
    assert_eq!(result.ok, 0);
    assert_eq!(result.changed, 0);
    assert_eq!(result.failed, 0);
}

#[test]
fn limit_single_host() {
    let mut inv = Inventory::default();
    inv.hosts.insert("host1".to_string(), Host {
        name: "host1".to_string(),
        vars: StrMap::new(),
    });
    inv.hosts.insert("host2".to_string(), Host {
        name: "host2".to_string(),
        vars: StrMap::new(),
    });

    let exec = Executor::new(inv).limit(Some("host1".to_string()));
    let hosts = exec.resolve_hosts("all");
    assert_eq!(hosts, vec!["host1".to_string()]);
}

#[test]
fn limit_multiple_hosts() {
    let mut inv = Inventory::default();
    inv.hosts.insert("host1".to_string(), Host {
        name: "host1".to_string(),
        vars: StrMap::new(),
    });
    inv.hosts.insert("host2".to_string(), Host {
        name: "host2".to_string(),
        vars: StrMap::new(),
    });
    inv.hosts.insert("host3".to_string(), Host {
        name: "host3".to_string(),
        vars: StrMap::new(),
    });

    let exec = Executor::new(inv).limit(Some("host1,host2".to_string()));
    let mut hosts = exec.resolve_hosts("all");
    hosts.sort();
    assert_eq!(hosts, vec!["host1".to_string(), "host2".to_string()]);
}

#[test]
fn limit_exclusion() {
    let mut inv = Inventory::default();
    inv.hosts.insert("host1".to_string(), Host {
        name: "host1".to_string(),
        vars: StrMap::new(),
    });
    inv.hosts.insert("host2".to_string(), Host {
        name: "host2".to_string(),
        vars: StrMap::new(),
    });

    let exec = Executor::new(inv).limit(Some("!host1".to_string()));
    let hosts = exec.resolve_hosts("all");
    assert_eq!(hosts, vec!["host2".to_string()]);
}

#[test]
fn limit_with_group() {
    let mut inv = Inventory::default();
    inv.hosts.insert("web1".to_string(), Host {
        name: "web1".to_string(),
        vars: StrMap::new(),
    });
    inv.hosts.insert("web2".to_string(), Host {
        name: "web2".to_string(),
        vars: StrMap::new(),
    });
    inv.groups.insert("webservers".to_string(), Group {
        name: "webservers".to_string(),
        hosts: vec!["web1".to_string(), "web2".to_string()],
        children: vec![],
        vars: StrMap::new(),
    });

    let exec = Executor::new(inv).limit(Some("webservers".to_string()));
    let mut hosts = exec.resolve_hosts("all");
    hosts.sort();
    assert_eq!(hosts, vec!["web1".to_string(), "web2".to_string()]);
}
