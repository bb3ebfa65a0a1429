use wand::inventory::Inventory;

#[test]
fn parse_single_host() {
    let inv = Inventory::from_ini("192.168.1.1");
    assert!(inv.hosts.contains_key("192.168.1.1"));
}

#[test]
fn parse_multiple_hosts() {
    let inv = Inventory::from_ini("192.168.1.1\n192.168.1.2\nweb.example.com");
    assert_eq!(inv.hosts.len(), 3);
    assert!(inv.hosts.contains_key("192.168.1.1"));
    assert!(inv.hosts.contains_key("192.168.1.2"));
    assert!(inv.hosts.contains_key("web.example.com"));
}

#[test]
fn parse_group_with_hosts() {
    let inv = Inventory::from_ini("[webservers]\nweb1\nweb2");
    assert_eq!(inv.groups.len(), 1);
    assert!(inv.groups.contains_key("webservers"));
    let group = inv.groups.get("webservers").unwrap();
    assert_eq!(group.hosts.len(), 2);
    assert!(group.hosts.contains(&"web1".to_string()));
    assert!(group.hosts.contains(&"web2".to_string()));
}

#[test]
fn parse_multiple_groups() {
    let inv = Inventory::from_ini("[webservers]\nweb1\n\n[dbservers]\ndb1");
    assert_eq!(inv.groups.len(), 2);
    assert!(inv.groups.contains_key("webservers"));
    assert!(inv.groups.contains_key("dbservers"));
}

#[test]
fn skip_comments() {
    let inv = Inventory::from_ini("# comment\nhost1\n; another comment\nhost2");
    assert_eq!(inv.hosts.len(), 2);
}

#[test]
fn ungrouped_hosts() {
    let inv = Inventory::from_ini("host1\nhost2");
    assert!(inv.groups.contains_key("ungrouped"));
    let group = inv.groups.get("ungrouped").unwrap();
    assert_eq!(group.hosts.len(), 2);
}

#[test]
fn parse_host_variables() {
    let inv = Inventory::from_ini("web1 ansible_host=192.168.1.1 ansible_user=admin");
    let host = inv.hosts.get("web1").unwrap();
    assert_eq!(host.vars.get("ansible_host").unwrap(), "192.168.1.1");
    assert_eq!(host.vars.get("ansible_user").unwrap(), "admin");
}

#[test]
fn parse_host_variables_in_group() {
    let inv = Inventory::from_ini("[web]\nweb1 ansible_port=2222");
    let host = inv.hosts.get("web1").unwrap();
    assert_eq!(host.vars.get("ansible_port").unwrap(), "2222");
}

#[test]
fn parse_group_variables() {
    let inv = Inventory::from_ini("[web]\nweb1\n\n[web:vars]\nhttp_port=80\nmax_clients=200");
    let group = inv.groups.get("web").unwrap();
    assert_eq!(group.vars.get("http_port").unwrap(), "80");
    assert_eq!(group.vars.get("max_clients").unwrap(), "200");
}

#[test]
fn parse_group_children() {
    let inv = Inventory::from_ini("[web]\nweb1\n\n[db]\ndb1\n\n[all:children]\nweb\ndb");
    let group = inv.groups.get("all").unwrap();
    assert!(group.children.contains(&"web".to_string()));
    assert!(group.children.contains(&"db".to_string()));
}

#[test]
fn parse_host_range_numeric() {
    let inv = Inventory::from_ini("web[1:3].example.com");
    assert!(inv.hosts.contains_key("web1.example.com"));
    assert!(inv.hosts.contains_key("web2.example.com"));
    assert!(inv.hosts.contains_key("web3.example.com"));
    assert_eq!(inv.hosts.len(), 3);
}

#[test]
fn parse_host_range_alpha() {
    let inv = Inventory::from_ini("db[a:c].local");
    assert!(inv.hosts.contains_key("dba.local"));
    assert!(inv.hosts.contains_key("dbb.local"));
    assert!(inv.hosts.contains_key("dbc.local"));
    assert_eq!(inv.hosts.len(), 3);
}

#[test]
fn parse_host_range_padded() {
    let inv = Inventory::from_ini("web[01:03].example.com");
    assert!(inv.hosts.contains_key("web01.example.com"));
    assert!(inv.hosts.contains_key("web02.example.com"));
    assert!(inv.hosts.contains_key("web03.example.com"));
}

#[test]
fn get_group_hosts_simple() {
    let inv = Inventory::from_ini("[web]\nweb1\nweb2");
    let hosts = inv.get_group_hosts("web");
    assert_eq!(hosts.len(), 2);
    assert!(hosts.contains(&"web1".to_string()));
    assert!(hosts.contains(&"web2".to_string()));
}

#[test]
fn get_group_hosts_with_children() {
    let inv = Inventory::from_ini("[web]\nweb1\n[db]\ndb1\n[all:children]\nweb\ndb");
    let hosts = inv.get_group_hosts("all");
    assert_eq!(hosts.len(), 2);
    assert!(hosts.contains(&"web1".to_string()));
    assert!(hosts.contains(&"db1".to_string()));
}

#[test]
fn get_group_hosts_nested_children() {
    let inv = Inventory::from_ini("[web]\nweb1\n[production:children]\nweb\n[all:children]\nproduction");
    let hosts = inv.get_group_hosts("all");
    assert_eq!(hosts.len(), 1);
    assert!(hosts.contains(&"web1".to_string()));
}

#[test]
fn get_host_groups_single() {
    let inv = Inventory::from_ini("[web]\nweb1");
    let groups = inv.get_host_groups("web1");
    assert_eq!(groups, vec!["web"]);
}

#[test]
fn get_host_groups_multiple() {
    let inv = Inventory::from_ini("[web]\nweb1\n[servers:children]\nweb\n[all:children]\nservers");
    let mut groups = inv.get_host_groups("web1");
    groups.sort();
    assert_eq!(groups, vec!["all", "servers", "web"]);
}

#[test]
fn get_host_vars() {
    let inv = Inventory::from_ini(
        "[web]\nweb1 ansible_host=192.168.1.1\n[web:vars]\nhttp_port=80"
    );
    let vars = inv.get_host_vars("web1");
    assert_eq!(vars.get("ansible_host").unwrap(), "192.168.1.1");
    assert_eq!(vars.get("http_port").unwrap(), "80");
}

#[test]
fn get_host_vars_precedence() {
    let inv = Inventory::from_ini(
        "[web]\nweb1 ansible_host=192.168.1.1\n[web:vars]\nansible_host=192.168.1.2"
    );
    let vars = inv.get_host_vars("web1");
    assert_eq!(vars.get("ansible_host").unwrap(), "192.168.1.1");
}

#[test]
fn get_all_hosts() {
    let inv = Inventory::from_ini("[web]\nweb1\nweb2\n[db]\ndb1");
    let mut hosts = inv.get_all_hosts();
    hosts.sort();
    assert_eq!(hosts, vec!["db1", "web1", "web2"]);
}

#[test]
fn get_all_hosts_empty() {
    let inv = Inventory::from_ini("");
    let hosts = inv.get_all_hosts();
    assert!(hosts.is_empty());
}
