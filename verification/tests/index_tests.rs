use raptor::automaton::Automaton;
use raptor::engine::fuzzy_match;
use raptor::index::Index;
use raptor::Error;

fn push_le32(out: &mut Vec<u8>, v: u32) {
    out.extend_from_slice(&v.to_le_bytes());
}

fn push_le64(out: &mut Vec<u8>, v: u64) {
    out.extend_from_slice(&v.to_le_bytes());
}

fn key_buffer(keys: &[&[u8]]) -> Vec<u8> {
    let mut out = Vec::new();
    push_le32(&mut out, keys.len() as u32);
    for k in keys {
        push_le32(&mut out, k.len() as u32);
        out.extend_from_slice(k);
    }
    out
}

fn value_buffer(vals: &[&[u64]]) -> Vec<u8> {
    let mut out = Vec::new();
    push_le32(&mut out, vals.len() as u32);
    for ids in vals {
        push_le32(&mut out, ids.len() as u32);
        for id in *ids {
            push_le64(&mut out, *id);
        }
    }
    out
}

fn sample_index() -> Index {
    let kb = key_buffer(&[b"cat", b"cats", b"dog"]);
    let vb = value_buffer(&[&[1, 2], &[3], &[4]]);
    Index::load(&kb, &vb).unwrap()
}

#[test]
fn load_sample_succeeds() {
    let idx = sample_index();
    assert_eq!(idx.keys.len(), 3);
    assert_eq!(idx.values.len(), 3);
    assert_eq!(idx.keys[0], b"cat".to_vec());
    assert_eq!(idx.values[0], vec![1, 2]);
}

#[test]
fn load_rejects_truncated_key_buffer() {
    let mut kb = key_buffer(&[b"cat"]);
    kb.pop();
    let vb = value_buffer(&[&[1]]);
    assert_eq!(Index::load(&kb, &vb).unwrap_err(), Error::CorruptIndex);
}

#[test]
fn load_rejects_trailing_bytes() {
    let mut kb = key_buffer(&[b"cat"]);
    kb.push(0);
    let vb = value_buffer(&[&[1]]);
    assert_eq!(Index::load(&kb, &vb).unwrap_err(), Error::CorruptIndex);
}

#[test]
fn load_rejects_truncated_value_buffer() {
    let kb = key_buffer(&[b"cat"]);
    let mut vb = value_buffer(&[&[1, 2, 3]]);
    vb.truncate(vb.len() - 1);
    assert_eq!(Index::load(&kb, &vb).unwrap_err(), Error::CorruptIndex);
}

#[test]
fn load_rejects_count_mismatch() {
    let kb = key_buffer(&[b"cat", b"dog"]);
    let vb = value_buffer(&[&[1]]);
    assert_eq!(Index::load(&kb, &vb).unwrap_err(), Error::CorruptIndex);
}

#[test]
fn load_rejects_unsorted_keys() {
    let kb = key_buffer(&[b"dog", b"cat"]);
    let vb = value_buffer(&[&[1], &[2]]);
    assert_eq!(Index::load(&kb, &vb).unwrap_err(), Error::CorruptIndex);
}

#[test]
fn load_rejects_duplicate_keys() {
    let kb = key_buffer(&[b"cat", b"cat"]);
    let vb = value_buffer(&[&[1], &[2]]);
    assert_eq!(Index::load(&kb, &vb).unwrap_err(), Error::CorruptIndex);
}

#[test]
fn load_accepts_empty_index() {
    let kb = key_buffer(&[]);
    let vb = value_buffer(&[]);
    let idx = Index::load(&kb, &vb).unwrap();
    assert_eq!(idx.keys.len(), 0);
}

#[test]
fn load_rejects_empty_buffers() {
    assert_eq!(
        Index::load(&Vec::new(), &Vec::new()).unwrap_err(),
        Error::CorruptIndex
    );
}

#[test]
fn build_rejects_large_bound() {
    assert_eq!(
        Automaton::build(b"cat".to_vec(), 3).unwrap_err(),
        Error::InvalidAutomatonParameters
    );
}

#[test]
fn build_accepts_supported_bounds() {
    for d in 0..=2 {
        assert!(Automaton::build(b"cat".to_vec(), d).is_ok());
    }
}

#[test]
fn exact_search_returns_only_exact_key() {
    let idx = sample_index();
    let aut = Automaton::build(b"cat".to_vec(), 0).unwrap();
    let r = idx.search(&aut);
    assert_eq!(r.len(), 1);
    assert_eq!(r[0].0, b"cat".to_vec());
    assert_eq!(r[0].1, vec![1, 2]);
}

#[test]
fn search_within_one_edit() {
    let idx = sample_index();
    let aut = Automaton::build(b"cat".to_vec(), 1).unwrap();
    let r = idx.search(&aut);
    let keys: Vec<Vec<u8>> = r.iter().map(|m| m.0.clone()).collect();
    assert_eq!(keys, vec![b"cat".to_vec(), b"cats".to_vec()]);
}

#[test]
fn search_misses_distant_keys() {
    let idx = sample_index();
    let aut = Automaton::build(b"cet".to_vec(), 0).unwrap();
    assert!(idx.search(&aut).is_empty());
}

#[test]
fn search_yields_keys_in_ascending_order() {
    let kb = key_buffer(&[b"hella", b"hellb", b"hello"]);
    let vb = value_buffer(&[&[10], &[11], &[12]]);
    let idx = Index::load(&kb, &vb).unwrap();
    let aut = Automaton::build(b"hello".to_vec(), 1).unwrap();
    let r = idx.search(&aut);
    let keys: Vec<Vec<u8>> = r.iter().map(|m| m.0.clone()).collect();
    assert_eq!(
        keys,
        vec![b"hella".to_vec(), b"hellb".to_vec(), b"hello".to_vec()]
    );
}

#[test]
fn repeated_search_is_deterministic() {
    let idx = sample_index();
    let aut = Automaton::build(b"cats".to_vec(), 2).unwrap();
    let first = idx.search(&aut);
    let second = idx.search(&aut);
    assert_eq!(first, second);
}

#[test]
fn fuzzy_match_is_index_search() {
    let idx = sample_index();
    let aut = Automaton::build(b"dog".to_vec(), 1).unwrap();
    assert_eq!(fuzzy_match(&idx, &aut), idx.search(&aut));
}

#[test]
fn automaton_accepts_within_bound_only() {
    let aut = Automaton::build(b"kitten".to_vec(), 2).unwrap();
    assert!(aut.accepts(&b"kitten".to_vec()));
    assert!(aut.accepts(&b"mitten".to_vec()));
    assert!(aut.accepts(&b"kitty".to_vec()));
    assert!(!aut.accepts(&b"sitting".to_vec()));
    assert!(!aut.accepts(&b"dog".to_vec()));
}

#[test]
fn empty_key_sorts_first_and_matches_empty_query() {
    let kb = key_buffer(&[b"", b"a"]);
    let vb = value_buffer(&[&[7], &[8]]);
    let idx = Index::load(&kb, &vb).unwrap();
    let aut = Automaton::build(Vec::new(), 0).unwrap();
    let r = idx.search(&aut);
    assert_eq!(r.len(), 1);
    assert_eq!(r[0].0, Vec::<u8>::new());
    assert_eq!(r[0].1, vec![7]);
}

#[test]
fn shared_prefixes_are_walked_correctly() {
    let kb = key_buffer(&[b"apple", b"apples", b"apricot", b"banana"]);
    let vb = value_buffer(&[&[1], &[2], &[3], &[4]]);
    let idx = Index::load(&kb, &vb).unwrap();
    let aut = Automaton::build(b"apple".to_vec(), 1).unwrap();
    let r = idx.search(&aut);
    let keys: Vec<Vec<u8>> = r.iter().map(|m| m.0.clone()).collect();
    assert_eq!(keys, vec![b"apple".to_vec(), b"apples".to_vec()]);
}
