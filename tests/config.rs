use lua_filter::config::{Config, FilterConfig};

fn decl(name: &str, script: &str) -> FilterConfig {
    FilterConfig { name: name.to_string(), script: script.to_string() }
}

fn config_from_yaml(input: &str) -> Config {
    let doc: serde_yaml::Value = serde_yaml::from_str(input).unwrap();
    let chains = doc.get("chains").unwrap().as_mapping().unwrap();
    let mut config = Config::new();
    for (chain, filters) in chains {
        let mut decls = Vec::new();
        for f in filters.as_sequence().unwrap() {
            decls.push(decl(
                f.get("name").unwrap().as_str().unwrap(),
                f.get("script").unwrap().as_str().unwrap(),
            ));
        }
        config.insert(chain.as_str().unwrap().to_string(), decls);
    }
    config
}

#[test]
fn config() {
    let input = "chains:\n    uni-5:\n        - name: Testnet Manager\n          script: filters/uni-5-manager.lua\n";

    let config = config_from_yaml(input);
    assert_eq!(config.len(), 1);
    let chain = config.get(&"uni-5".to_string()).unwrap();
    assert_eq!(chain.len(), 1);
    assert_eq!(chain[0].name, "Testnet Manager");
    assert_eq!(chain[0].script, "filters/uni-5-manager.lua");
}

#[test]
fn empty_config_has_no_scripts() {
    let config = Config::new();
    assert_eq!(config.len(), 0);
    assert!(config.get(&"uni-5".to_string()).is_none());
    assert!(config.scripts().is_empty());
}

#[test]
fn scripts_follow_chains_then_declarations() {
    let mut config = Config::new();
    config.insert("a".to_string(), vec![decl("one", "a1.lua"), decl("two", "a2.lua")]);
    config.insert("b".to_string(), vec![decl("three", "b1.lua")]);
    assert_eq!(config.len(), 2);
    assert_eq!(config.scripts(), vec!["a1.lua", "a2.lua", "b1.lua"]);
}

#[test]
fn insert_replaces_a_declared_chain_in_place() {
    let mut config = Config::new();
    config.insert("a".to_string(), vec![decl("one", "a1.lua")]);
    config.insert("b".to_string(), vec![decl("two", "b1.lua")]);
    config.insert("a".to_string(), vec![decl("three", "a3.lua"), decl("four", "a4.lua")]);
    assert_eq!(config.len(), 2);
    assert_eq!(config.get(&"a".to_string()).unwrap().len(), 2);
    assert_eq!(config.scripts(), vec!["a3.lua", "a4.lua", "b1.lua"]);
}
