use hc_helper::airtable::{
    escape_formula_field, escape_formula_string, find_formula, find_records, upsert_records,
    AirtableTable, FindRecord, FindRecords, FindRecordsTopLevel, Upsert,
};
use hc_helper::http::{authorization, is_sendable, Method};
use hc_helper::link::{is_short, segment_room_of, LinkError};

fn table(base_id: &str, name: &str) -> AirtableTable {
    AirtableTable {
        base_id: base_id.to_string(),
        table_id_or_name: name.to_string(),
    }
}

fn link(url: Result<String, LinkError>) -> String {
    match url {
        Ok(url) => url,
        Err(_) => panic!("no address"),
    }
}

#[test]
fn table_has_an_address() {
    assert_eq!(
        link(table("appJiSAd1LqJ4aFWL", "YSWS Project Submission").url()),
        "https://api.airtable.com/v0/appJiSAd1LqJ4aFWL/YSWS%20Project%20Submission"
    );
}

#[test]
fn names_cannot_leave_their_segment() {
    assert_eq!(
        link(table("app/..", "a?b#c%d").url()),
        "https://api.airtable.com/v0/app%2F../a%3Fb%23c%25d"
    );
    assert_eq!(
        link(table("..", "t").url()),
        "https://api.airtable.com/v0/t"
    );
}

#[test]
fn tables_are_copied() {
    let original = table("app", "t");
    let copy = original.clone();
    assert_eq!(copy.base_id, "app");
    assert_eq!(copy.table_id_or_name, "t");
    assert_eq!(link(original.url()), link(copy.url()));
}

#[test]
fn formula_strings_are_escaped() {
    assert_eq!(escape_formula_string("plain"), "plain");
    assert_eq!(escape_formula_string("O'Brien"), "O\\'Brien");
    assert_eq!(escape_formula_string("a\\'b}"), "a\\\\\\'b}");
    assert_eq!(escape_formula_string(""), "");
}

#[test]
fn formula_fields_are_escaped() {
    assert_eq!(escape_formula_field("Code URL"), "Code URL");
    assert_eq!(escape_formula_field("a}b"), "a\\}b");
    assert_eq!(escape_formula_field("\\}'"), "\\\\\\}'");
}

#[test]
fn escaping_is_replacing() {
    for text in ["", "'", "\\", "}", "\\'", "'\\", "a\\\\'}'b", "é'€\\"] {
        assert_eq!(
            escape_formula_string(text),
            text.replace('\\', "\\\\").replace('\'', "\\'")
        );
        assert_eq!(
            escape_formula_field(text),
            text.replace('\\', "\\\\").replace('}', "\\}")
        );
    }
}

#[test]
fn formula_compares_a_field_with_a_value() {
    assert_eq!(
        find_formula("Email", "john@example.com"),
        "{Email}='john@example.com'"
    );
    assert_eq!(find_formula("a}", "b'"), "{a\\}}='b\\''");
}

/// Reads a formula back by the rules of its grammar.
fn read_formula(formula: &str) -> Option<(String, String)> {
    fn until(chars: &mut std::str::Chars, close: char) -> Option<String> {
        let mut text = String::new();
        loop {
            match chars.next()? {
                '\\' => text.push(chars.next()?),
                c if c == close => return Some(text),
                c => text.push(c),
            }
        }
    }
    let mut chars = formula.chars();
    (chars.next()? == '{').then_some(())?;
    let field = until(&mut chars, '}')?;
    (chars.next()? == '=').then_some(())?;
    (chars.next()? == '\'').then_some(())?;
    let value = until(&mut chars, '\'')?;
    chars.next().is_none().then_some((field, value))
}

#[test]
fn formula_is_read_back() {
    for field in ["", "Email", "}='", "\\", "a\\}"] {
        for value in ["", "x", "' = '", "\\'", "'}", "\\\\"] {
            assert_eq!(
                read_formula(&find_formula(field, value)),
                Some((field.to_string(), value.to_string()))
            );
        }
    }
}

fn upsert(n: usize) -> Upsert<usize> {
    let names = vec!["Email".to_string()];
    match upsert_records(table("app", "My Table"), (0..n).collect(), names) {
        Ok(upsert) => upsert,
        Err(_) => panic!("no address"),
    }
}

fn chunk_sizes(n: usize) -> Vec<usize> {
    upsert(n)
        .chunks
        .iter()
        .map(|chunk| chunk.len())
        .collect()
}

#[test]
fn records_go_out_in_chunks_of_ten() {
    assert_eq!(chunk_sizes(0), Vec::<usize>::new());
    assert_eq!(chunk_sizes(1), vec![1]);
    assert_eq!(chunk_sizes(10), vec![10]);
    assert_eq!(chunk_sizes(11), vec![10, 1]);
    assert_eq!(chunk_sizes(20), vec![10, 10]);
    assert_eq!(chunk_sizes(35), vec![10, 10, 10, 5]);
}

#[test]
fn chunks_hold_every_record_once_in_order() {
    let upsert = upsert(23);
    let all: Vec<usize> = upsert.chunks.iter().flatten().map(|r| r.fields).collect();
    assert_eq!(all, (0..23).collect::<Vec<usize>>());
    assert_eq!(upsert.settings.fields_to_merge_on, vec!["Email"]);
}

#[test]
fn body_of_a_chunk() {
    let upsert = upsert(12);
    let body = upsert.body(1);
    assert_eq!(body.settings.fields_to_merge_on, vec!["Email"]);
    assert_eq!(
        body.records.iter().map(|r| r.fields).collect::<Vec<usize>>(),
        vec![10, 11]
    );
    assert!(body.typecast);
}

#[test]
fn write_is_a_patch() {
    let upsert = upsert(1);
    assert_eq!(upsert.table.base_id, "app");
    let request = upsert.upsert_request("token".to_string(), "{}".to_string());
    assert_eq!(request.method, Method::Patch);
    assert_eq!(request.url, "https://api.airtable.com/v0/app/My%20Table");
    assert!(request.json);
    assert_eq!(request.bearer, Some("token".to_string()));
    assert_eq!(request.body, "{}");
}

#[test]
fn tokens_go_into_a_header() {
    assert_eq!(authorization("pat.1"), "Bearer pat.1");
    assert!(is_sendable("pat.1"));
    assert!(is_sendable(""));
    assert!(is_sendable("tab\there"));
    assert!(is_sendable("é"));
    assert!(!is_sendable("line\nbreak"));
    assert!(!is_sendable("del\u{7f}"));
    assert!(!is_sendable("nul\0"));
}

#[test]
fn header_values_are_those_of_reqwest() {
    for c in '\0'..='\u{200}' {
        let token = c.to_string();
        assert_eq!(
            is_sendable(&token),
            reqwest::header::HeaderValue::from_str(&format!("Bearer {token}")).is_ok()
        );
    }
}

fn page(records: &[i32], offset: Option<&str>) -> FindRecordsTopLevel<i32> {
    FindRecordsTopLevel {
        records: records.iter().map(|&fields| FindRecord { fields }).collect(),
        offset: offset.map(str::to_string),
    }
}

#[test]
fn search_follows_the_offsets() {
    let mut search = find_records::<i32>(table("app", "t"), "Email".to_string(), "a b&c".to_string());
    assert_eq!(
        link(search.page_url()),
        "https://api.airtable.com/v0/app/t?filterByFormula=%7BEmail%7D%3D%27a+b%26c%27"
    );
    assert!(search.add_page(page(&[1, 2], Some("itr/rec 1"))));
    assert_eq!(
        link(search.page_url()),
        "https://api.airtable.com/v0/app/t?filterByFormula=%7BEmail%7D%3D%27a+b%26c%27&offset=itr%2Frec+1"
    );
    assert!(search.add_page(page(&[], Some("next"))));
    assert!(!search.add_page(page(&[3], None)));
    assert_eq!(search.records, vec![1, 2, 3]);
}

#[test]
fn addresses_are_those_of_reqwest() {
    let table = table("app é/", "Tbl '1' 100%");
    let search = find_records::<i32>(table.clone(), "F}".to_string(), "v'\\".to_string());
    let mut url = reqwest::Url::parse("https://api.airtable.com").unwrap();
    url.path_segments_mut()
        .unwrap()
        .push("v0")
        .push(&table.base_id)
        .push(&table.table_id_or_name);
    assert_eq!(link(table.url()), url.as_str());
    url.query_pairs_mut()
        .append_pair("filterByFormula", &search.formula);
    assert_eq!(link(search.page_url()), url.as_str());
}

#[test]
fn long_texts_have_an_address() {
    let name = "n".repeat(100_000);
    assert_eq!(
        link(table("app", &name).url()),
        format!("https://api.airtable.com/v0/app/{name}")
    );
    let mut search = find_records::<i32>(table("app", &name), "F".to_string(), name.clone());
    search.offset = Some(name.clone());
    assert_eq!(
        link(search.page_url()),
        format!(
            "https://api.airtable.com/v0/app/{name}?filterByFormula=%7BF%7D%3D%27{name}%27&offset={name}"
        )
    );
}

#[test]
fn pages_are_at_the_address_of_the_table() {
    for (base_id, name) in [
        ("app", "t"),
        ("", ""),
        ("..", "."),
        (".\t.", "\n"),
        ("a b", "%2e%2E"),
        ("é\\/", "C|"),
        ("?", "#"),
    ] {
        let search =
            find_records::<i32>(table(base_id, name), "F".to_string(), "v".to_string());
        let mut url = reqwest::Url::parse("https://api.airtable.com").unwrap();
        url.path_segments_mut()
            .unwrap()
            .push("v0")
            .push(base_id)
            .push(name);
        assert_eq!(link(search.table.url()), url.as_str());
        url.query_pairs_mut()
            .append_pair("filterByFormula", "{F}='v'");
        assert_eq!(link(search.page_url()), url.as_str());
        assert!(link(search.page_url()).starts_with(&link(search.table.url())));
    }
}

#[test]
fn offsets_of_an_address_fit_in_32_bits() {
    let base = "https://api.airtable.com";
    let text = "😀".repeat(1 << 14);
    let size = 12 * (1 << 14) + 1;
    let count = (u32::MAX as usize - 16 - base.len()) / size;
    let mut path = vec![text.as_str(); count];
    assert!(is_short(base, &path));
    let left = u32::MAX as usize - 16 - base.len() - count * size;
    let rest = "a".repeat(left - 1);
    path.push(&rest);
    assert!(is_short(base, &path));
    path.push("");
    assert!(!is_short(base, &path));
}

#[test]
fn room_is_what_a_segment_takes_up() {
    let before = "https://api.airtable.com/v0/app/".len();
    for c in ('\0'..='\u{900}').chain(['€', '\u{ffff}', '\u{10000}', '😀', char::MAX]) {
        let name = format!("x{c}");
        let bytes = link(table("app", &name).url()).len() - before;
        assert_eq!(segment_room_of(&name, 100), Some(bytes as u64), "{c:?}");
        assert_eq!(segment_room_of(&name, bytes as u64 - 1), None);
    }
}

#[test]
fn page_is_read() {
    let request = FindRecords::<i32>::page_request("u".to_string(), "token".to_string());
    assert_eq!(request.method, Method::Get);
    assert_eq!(request.url, "u");
    assert!(request.json);
    assert_eq!(request.bearer, Some("token".to_string()));
}

#[test]
fn next_page_is_asked_for_at_its_address() {
    let mut search =
        find_records::<i32>(table("app", "t"), "F".to_string(), "v".to_string());
    for offset in [None, Some("o"), Some("p")] {
        search.offset = offset.map(str::to_string);
        let request = match search.next_request("token".to_string()) {
            Ok(request) => request,
            Err(_) => panic!("no address"),
        };
        assert_eq!(request.method, Method::Get);
        assert_eq!(request.url, link(search.page_url()));
        assert!(request.json);
        assert_eq!(request.bearer, Some("token".to_string()));
    }
}

#[test]
fn link_errors_have_messages() {
    assert_eq!(
        LinkError::Invalid("empty host".to_string()).message("x"),
        "empty host"
    );
    assert_eq!(LinkError::CannotBeABase.message("x"), "x");
}
