use regex::Regex;
use teralaunch::pagemaps::extract_maps_from_html;

/// The same extraction done by the regex crate with the launcher's patterns.
fn by_regex(html: &str, base_url: &str) -> Result<(Vec<(String, String)>, String), String> {
    let re_acts = Regex::new(r"var ACTS_MAP\s*=\s*(\{[\s\S]*?\});").unwrap();
    let re_pages = Regex::new(r"var PAGES_MAP\s*=\s*(\{[\s\S]*?\});").unwrap();
    let re_item = Regex::new(r#"(\w+):\s*location\.protocol\s*\+\s*"//\S+?(/[^"]*?)",?"#).unwrap();
    let re_quote = Regex::new(r#"([,\s{])(\w+)(\s*?:)"#).unwrap();
    let re_js = Regex::new(r"(location\.protocol[\s\S]+?)(\}|,)").unwrap();
    let re_comma = Regex::new(r",\s*?\}").unwrap();
    let re_ws = Regex::new(r"[\r\n\t ]+").unwrap();

    let acts_raw = re_acts
        .captures(html)
        .and_then(|c| c.get(1))
        .map(|m| m.as_str())
        .ok_or("Could not find ACTS_MAP in HTML".to_string())?;
    let mut acts = Vec::new();
    for cap in re_item.captures_iter(acts_raw) {
        let key = cap.get(1).unwrap().as_str().to_string();
        let path = cap.get(2).unwrap().as_str();
        acts.push((key, format!("{}{}", base_url, path)));
    }
    let pages_raw = re_pages
        .captures(html)
        .and_then(|c| c.get(1))
        .map(|m| m.as_str())
        .ok_or("Could not find PAGES_MAP in HTML".to_string())?;
    let mut s = pages_raw.to_string();
    s = re_ws.replace_all(&s, " ").to_string();
    s = s.trim().replace("{ ", "{").replace(" }", "}");
    s = re_js.replace_all(&s, r#""/JS/EXPRESSION/REMOVED"$2"#).to_string();
    s = re_quote.replace_all(&s, r#"$1"$2"$3"#).to_string();
    s = re_comma.replace_all(&s, "}").to_string();
    serde_json::from_str::<serde_json::Value>(&s).map_err(|e| format!("Failed to parse pagesMap JSON: {}", e))?;
    Ok((acts, s))
}

fn by_library(html: &str, base_url: &str) -> Result<(Vec<(String, String)>, String), String> {
    extract_maps_from_html(html, base_url).map(|pm| (pm.acts, pm.pages_json))
}

const PAGE: &str = "<html><script>\r\n\
var ACTS_MAP = {\n\
  210: location.protocol + \"//launcher.example.com:8080/tera/ShopAuth?authKey=%s\",\n\
  211 :  location.protocol+\"//host/a/b\",\n\
  300: \"/not/an/action\",\n\
  clé: location.protocol + \"//h/x/y\"\n\
};\n\
var PAGES_MAP = {\n\
\tmain: \"/launcher/Main\",\n\
  shop : location.protocol + \"//host:1/shop\",\n\
  help  :\"/help\",\n\
};\n\
</script></html>";

#[test]
fn extracts_actions_and_pages_like_the_regex_engine() {
    let base = "https://launcher.example.com";
    let got = by_library(PAGE, base);
    let want = by_regex(PAGE, base);
    assert_eq!(got, want);
    let (acts, pages) = got.unwrap();
    assert_eq!(
        acts,
        vec![
            ("210".to_string(), "https://launcher.example.com/tera/ShopAuth?authKey=%s".to_string()),
            ("clé".to_string(), "https://launcher.example.com/x/y".to_string()),
        ]
    );
    assert_eq!(
        pages,
        "{\"main\": \"/launcher/Main\", \"shop\" : \"/JS/EXPRESSION/REMOVED\", \"help\" :\"/help\"}"
    );
    let parsed: serde_json::Value = serde_json::from_str(&pages).unwrap();
    assert_eq!(parsed["main"], "/launcher/Main");
}

#[test]
fn second_action_without_space_before_path_is_kept() {
    let html = "var ACTS_MAP = {a1: location.protocol + \"//h:1/p\", b2:location.protocol + \"//h/q\"}; var PAGES_MAP = {};";
    let got = by_library(html, "B");
    assert_eq!(got, by_regex(html, "B"));
    let (acts, pages) = got.unwrap();
    assert_eq!(acts, vec![("a1".to_string(), "B/p".to_string()), ("b2".to_string(), "B/q".to_string())]);
    assert_eq!(pages, "{}");
}

#[test]
fn missing_acts_map_is_reported_first() {
    let html = "var PAGES_MAP = {a: 1};";
    let got = by_library(html, "B");
    assert_eq!(got, Err("Could not find ACTS_MAP in HTML".to_string()));
    assert_eq!(got, by_regex(html, "B"));
}

#[test]
fn missing_pages_map_is_reported() {
    let html = "var ACTS_MAP = {};";
    let got = by_library(html, "B");
    assert_eq!(got, Err("Could not find PAGES_MAP in HTML".to_string()));
    assert_eq!(got, by_regex(html, "B"));
}

#[test]
fn block_runs_to_the_first_close_even_across_declarations() {
    let html = "var ACTS_MAP = { a: 1 } var PAGES_MAP = {b: 2};";
    assert_eq!(by_library(html, "B"), by_regex(html, "B"));
    assert_eq!(by_library(html, "B"), Ok((vec![], "{\"b\": 2}".to_string())));
}

#[test]
fn unterminated_block_is_not_a_match() {
    let html = "var ACTS_MAP = { a: 1 }; var PAGES_MAP = {b: 2}";
    assert_eq!(by_library(html, "B"), by_regex(html, "B"));
    assert_eq!(by_library(html, "B"), Err("Could not find PAGES_MAP in HTML".to_string()));
}

#[test]
fn leftmost_declaration_wins_and_block_ends_at_first_close() {
    let html = "var ACTS_MAP={x: location.protocol + \"//a/1\"}; var ACTS_MAP = {y: location.protocol + \"//a/2\"};\
                var PAGES_MAP =\n{ k1 : location.protocol + \"//z\" , k2: \"v\" , };";
    let got = by_library(html, "U");
    assert_eq!(got, by_regex(html, "U"));
    let (acts, pages) = got.unwrap();
    assert_eq!(acts, vec![("x".to_string(), "U/1".to_string())]);
    assert_eq!(pages, "{\"k1\" : \"/JS/EXPRESSION/REMOVED\", \"k2\": \"v\" }");
}

#[test]
fn assorted_pages_texts_match_the_regex_engine() {
    let cases = [
        "var ACTS_MAP = {}; var PAGES_MAP = {\u{3000}a\u{3000}:\u{3000}1\u{3000}};",
        "var ACTS_MAP = {}; var PAGES_MAP = {a:location.protocol+\"//x\"};",
        "var ACTS_MAP = {}; var PAGES_MAP = {,b_2 :3,,   }};",
        "var ACTS_MAP = {k: location.protocol + \"//no-slash\" , z: location.protocol + \"// sp/x\"}; var PAGES_MAP = {};",
        "var ACTS_MAP = {k: location.protocol + \"//h/p\"q\", m: location.protocol + \"//h/r\"}; var PAGES_MAP = {};",
        "var ACTS_MAP = {}; var PAGES_MAP = {a: location.protocol};, b: 2};",
    ];
    for html in cases.iter() {
        assert_eq!(by_library(html, "base"), by_regex(html, "base"), "{}", html);
    }
}

#[test]
fn page_map_that_is_not_json_is_refused() {
    let html = "var ACTS_MAP = {}; var PAGES_MAP = {a: 'single'};";
    let got = by_library(html, "B");
    assert_eq!(got, by_regex(html, "B"));
    let e = got.unwrap_err();
    assert!(e.starts_with("Failed to parse pagesMap JSON: "), "{}", e);
}

#[test]
fn parsed_page_map_is_handed_over() {
    let html = "var ACTS_MAP = {}; var PAGES_MAP = {main: \"/m\", n: 3};";
    let pm = extract_maps_from_html(html, "B").ok().unwrap();
    assert_eq!(pm.pages["main"], "/m");
    assert_eq!(pm.pages["n"], 3);
    assert_eq!(pm.page_entries, Some(vec![("main".to_string(), "/m".to_string())]));
}

#[test]
fn page_map_examples() {
    let html = "var PAGES_MAP = {0: \"/page0\", 1: \"/page1\"}; var ACTS_MAP = {210: location.protocol + \"//1.2.3.4:8080/tera/ShopAuth?authKey=%s\"};";
    let pm = extract_maps_from_html(html, "https://x.com").ok().unwrap();
    assert_eq!(pm.acts, vec![("210".to_string(), "https://x.com/tera/ShopAuth?authKey=%s".to_string())]);
    assert_eq!(pm.pages, serde_json::from_str::<serde_json::Value>("{\"0\": \"/page0\", \"1\": \"/page1\"}").unwrap());
    assert_eq!(
        pm.page_entries,
        Some(vec![("0".to_string(), "/page0".to_string()), ("1".to_string(), "/page1".to_string())])
    );
    let html = "var ACTS_MAP = {};\nvar PAGES_MAP = {\n  home: 1,\n  shop: 2,\n};";
    let pm = extract_maps_from_html(html, "https://x.com").ok().unwrap();
    assert!(pm.acts.is_empty());
    assert_eq!(pm.pages_json, "{\"home\": 1, \"shop\": 2}");
    assert_eq!(pm.pages["home"], 1);
    assert_eq!(pm.pages["shop"], 2);
    assert_eq!(pm.page_entries, Some(vec![]));
}
