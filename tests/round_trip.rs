use std::collections::BTreeMap;

use lumen::page::{page_content, page_policy, page_reply, split_front_matter, CacheFlag};
use minijinja::{Environment, Value};
use yaml_rust2::{Yaml, YamlLoader};

#[test]
fn front_matter_title_and_body_reach_the_theme() {
    let doc = "---\ntitle: X\n---\nHello *{{ title }}*";
    let (front, body) = split_front_matter(doc);
    assert_eq!(front.as_deref(), Some("title: X"));
    assert_eq!(body, "Hello *{{ title }}*");

    let docs = YamlLoader::load_from_str(front.as_deref().unwrap()).unwrap();
    let title = match &docs[0] {
        Yaml::Hash(h) => h.get(&Yaml::String("title".to_string())).and_then(|t| t.as_str()).unwrap().to_string(),
        _ => panic!("front matter should be a mapping"),
    };
    assert_eq!(title, "X");

    let mut meta = BTreeMap::new();
    meta.insert("title".to_string(), Value::from(title));
    let mut env = Environment::new();
    env.add_template("index", "<title>{{ title }}</title>{{ content }}").unwrap();
    let pass = env.render_str(&body, Value::from(meta.clone())).ok();
    assert_eq!(pass.as_deref(), Some("Hello *X*"));
    let content = page_content(&body, pass);
    assert_eq!(content, "<p>Hello <em>X</em></p>\n");
    meta.insert("content".to_string(), Value::from(content));

    let page = env.get_template("index").unwrap().render(Value::from(meta)).unwrap();
    assert_eq!(page, "<title>X</title><p>Hello <em>X</em></p>\n");
    let policy = page_policy(true, CacheFlag::Absent, None, None);
    let reply = page_reply(Some(&page), &policy, true, "DATE", "");
    assert_eq!(reply.status, 200);
    assert_eq!(reply.body, page.as_bytes().to_vec());
    assert!(reply.head.contains("Content-Type: text/html; charset=utf-8\r\n"));
}
