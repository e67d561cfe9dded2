use raptor::index::Index;
use raptor::render::render_body;
use raptor::service::{extract_query, handle};
use raptor::Error;

fn push_le32(out: &mut Vec<u8>, v: u32) {
    out.extend_from_slice(&v.to_le_bytes());
}

fn push_le64(out: &mut Vec<u8>, v: u64) {
    out.extend_from_slice(&v.to_le_bytes());
}

fn key_buffer(keys: &[&[u8]]) -> Vec<u8> {
    let mut out = Vec::new();
    push_le32(&mut out, keys.len() as u32);
    for k in keys {
        push_le32(&mut out, k.len() as u32);
        out.extend_from_slice(k);
    }
    out
}

fn value_buffer(vals: &[&[u64]]) -> Vec<u8> {
    let mut out = Vec::new();
    push_le32(&mut out, vals.len() as u32);
    for ids in vals {
        push_le32(&mut out, ids.len() as u32);
        for id in *ids {
            push_le64(&mut out, *id);
        }
    }
    out
}

fn sample_index() -> Index {
    let kb = key_buffer(&[b"cat", b"cats", b"dog"]);
    let vb = value_buffer(&[&[1, 2], &[3], &[4]]);
    Index::load(&kb, &vb).unwrap()
}

fn body_text(body: &[u8]) -> String {
    String::from_utf8(body.to_vec()).unwrap()
}

#[test]
fn query_cat_returns_only_cat() {
    let idx = sample_index();
    let r = handle(&idx, "/?q=cat");
    assert_eq!(r.status, 200);
    assert_eq!(
        body_text(&r.body),
        "<html><body>cat [1, 2]<br/></body></html>"
    );
}

#[test]
fn query_cats_returns_only_cats() {
    let idx = sample_index();
    let r = handle(&idx, "/?q=cats");
    assert_eq!(r.status, 200);
    assert_eq!(body_text(&r.body), "<html><body>cats [3]<br/></body></html>");
}

#[test]
fn query_cet_matches_nothing() {
    let idx = sample_index();
    let r = handle(&idx, "/?q=cet");
    assert_eq!(r.status, 200);
    assert_eq!(body_text(&r.body), "<html><body></body></html>");
}

#[test]
fn long_query_bound_is_still_enforced() {
    let idx = sample_index();
    let r = handle(&idx, "/?q=caterpillar");
    assert_eq!(r.status, 200);
    assert_eq!(body_text(&r.body), "<html><body></body></html>");
}

#[test]
fn medium_query_allows_one_edit() {
    let idx = sample_index();
    let r = handle(&idx, "/?q=catsy");
    assert_eq!(r.status, 200);
    assert_eq!(body_text(&r.body), "<html><body>cats [3]<br/></body></html>");
}

#[test]
fn absent_query_parameter_yields_empty_success() {
    let idx = sample_index();
    let r = handle(&idx, "/");
    assert_eq!(r.status, 200);
    assert!(r.body.is_empty());
    let r = handle(&idx, "/?other=1");
    assert_eq!(r.status, 200);
    assert!(r.body.is_empty());
}

#[test]
fn malformed_target_yields_client_error_and_service_survives() {
    let idx = sample_index();
    let r = handle(&idx, ":99999999999");
    assert_eq!(r.status, 400);
    assert!(r.body.is_empty());
    let r = handle(&idx, "/?q=cat");
    assert_eq!(r.status, 200);
    assert_eq!(
        body_text(&r.body),
        "<html><body>cat [1, 2]<br/></body></html>"
    );
}

#[test]
fn query_is_lower_cased_before_matching() {
    let idx = sample_index();
    let r = handle(&idx, "/?q=CAT");
    assert_eq!(r.status, 200);
    assert_eq!(
        body_text(&r.body),
        "<html><body>cat [1, 2]<br/></body></html>"
    );
}

#[test]
fn query_value_is_percent_decoded() {
    let idx = sample_index();
    let r = handle(&idx, "/?q=c%61t");
    assert_eq!(r.status, 200);
    assert_eq!(
        body_text(&r.body),
        "<html><body>cat [1, 2]<br/></body></html>"
    );
}

#[test]
fn first_query_parameter_wins() {
    let idx = sample_index();
    let r = handle(&idx, "/?q=cat&q=dog");
    assert_eq!(
        body_text(&r.body),
        "<html><body>cat [1, 2]<br/></body></html>"
    );
}

#[test]
fn repeated_requests_are_deterministic() {
    let idx = sample_index();
    let first = handle(&idx, "/?q=cats");
    let second = handle(&idx, "/?q=cats");
    assert_eq!(first.status, second.status);
    assert_eq!(first.body, second.body);
}

#[test]
fn more_than_ten_identifiers_render_first_ten_only() {
    let kb = key_buffer(&[b"cat"]);
    let vb = value_buffer(&[&[1, 2, 3, 4, 5, 6, 7, 8, 9, 10, 11, 12]]);
    let idx = Index::load(&kb, &vb).unwrap();
    let r = handle(&idx, "/?q=cat");
    assert_eq!(
        body_text(&r.body),
        "<html><body>cat [1, 2, 3, 4, 5, 6, 7, 8, 9, 10]<br/></body></html>"
    );
}

#[test]
fn exactly_ten_identifiers_render_whole_list() {
    let matches = vec![(b"k".to_vec(), vec![1, 2, 3, 4, 5, 6, 7, 8, 9, 10])];
    let body = render_body(&matches);
    assert_eq!(
        body_text(&body),
        "<html><body>k [1, 2, 3, 4, 5, 6, 7, 8, 9, 10]<br/></body></html>"
    );
}

#[test]
fn render_handles_empty_identifier_list_and_large_numbers() {
    let matches = vec![
        (b"a".to_vec(), Vec::new()),
        (b"b".to_vec(), vec![1234567890123456789]),
    ];
    let body = render_body(&matches);
    assert_eq!(
        body_text(&body),
        "<html><body>a []<br/>b [1234567890123456789]<br/></body></html>"
    );
}

#[test]
fn empty_query_value_matches_nothing_in_sample() {
    let idx = sample_index();
    let r = handle(&idx, "/?q=");
    assert_eq!(r.status, 200);
    assert_eq!(body_text(&r.body), "<html><body></body></html>");
}

#[test]
fn tier_boundary_at_four_scalars() {
    let kb = key_buffer(&[b"abcd"]);
    let vb = value_buffer(&[&[1]]);
    let idx = Index::load(&kb, &vb).unwrap();
    let r = handle(&idx, "/?q=abce");
    assert_eq!(body_text(&r.body), "<html><body></body></html>");
    let r = handle(&idx, "/?q=abcde");
    assert_eq!(body_text(&r.body), "<html><body>abcd [1]<br/></body></html>");
}

#[test]
fn tier_boundary_at_eight_scalars() {
    let kb = key_buffer(&[b"abcdefgh"]);
    let vb = value_buffer(&[&[1]]);
    let idx = Index::load(&kb, &vb).unwrap();
    let r = handle(&idx, "/?q=abcdefgx");
    assert_eq!(body_text(&r.body), "<html><body>abcdefgh [1]<br/></body></html>");
    let r = handle(&idx, "/?q=abcdefxy");
    assert_eq!(body_text(&r.body), "<html><body></body></html>");
    let r = handle(&idx, "/?q=abcdefgxy");
    assert_eq!(body_text(&r.body), "<html><body>abcdefgh [1]<br/></body></html>");
}

#[test]
fn extract_query_reports_each_outcome() {
    assert_eq!(
        extract_query(":99999999999").unwrap_err(),
        Error::MalformedRequestTarget
    );
    assert_eq!(extract_query("/?q=dog").unwrap(), Some("dog".to_string()));
    assert_eq!(extract_query("/x").unwrap(), None);
}
