use adblock_bridge::catalog::{list_get, list_size};
use adblock_bridge::codec::{decode_array, encode_array, CBuffer};
use adblock_bridge::text::split_lines;

#[test]
fn split_lines_behavior() {
    assert_eq!(split_lines(""), Vec::<String>::new());
    assert_eq!(split_lines("a"), vec!["a".to_string()]);
    assert_eq!(split_lines("a\nb"), vec!["a".to_string(), "b".to_string()]);
    assert_eq!(split_lines("a\r\nb\nc"), vec!["a".to_string(), "b".to_string(), "c".to_string()]);
    assert_eq!(split_lines("a\nb\n"), vec!["a".to_string(), "b".to_string()]);
    assert_eq!(split_lines("\n"), vec!["".to_string()]);
    assert_eq!(split_lines("a\r"), vec!["a\r".to_string()]);
}

#[test]
fn catalog_bounds() {
    let n = list_size("regions");
    assert!(n > 0);
    let mut i: usize = 0;
    while i < n {
        let e = list_get("regions", i);
        assert!(!e.uuid.is_empty());
        assert!(!e.url.is_empty());
        assert!(e.langs.len() <= 3);
        i += 1;
    }
    let m = list_size("default");
    assert!(m > 0);
    let mut j: usize = 0;
    while j < m {
        let e = list_get("default", j);
        assert!(!e.uuid.is_empty());
        assert!(!e.url.is_empty());
        j += 1;
    }
}

#[test]
fn unknown_category_behaves_as_default() {
    assert_eq!(list_size("unknown-category"), list_size("default"));
    let a = list_get("unknown-category", 0);
    let b = list_get("default", 0);
    assert_eq!(a.uuid, b.uuid);
    assert_eq!(a.url, b.url);
}

#[test]
fn regional_entries_carry_languages() {
    let germany = list_get("regions", 0);
    assert_eq!(germany.langs, vec!["de".to_string()]);
    let ru = list_get("regions", 3);
    assert_eq!(ru.langs.len(), 3);
}

#[test]
fn catalog_records_are_complete() {
    let e = list_get("default", 0);
    assert_eq!(e.uuid, "easylist");
    assert_eq!(e.url, "https://easylist.to/easylist/easylist.txt");
    assert_eq!(e.title, "EasyList");
    assert_eq!(e.langs, Vec::<String>::new());
    assert_eq!(e.component_id, "");
    assert_eq!(e.base64_public_key, "");
}

#[test]
fn codec_roundtrip() {
    let data = b"hello world".to_vec();
    let buf = CBuffer::encode(&data).expect("nul-free data encodes");
    assert_eq!(buf.decode(), data);
    let raw = buf.into_bytes();
    assert_eq!(raw.last(), Some(&0u8));
    assert_eq!(&raw[..raw.len() - 1], &data[..]);
}

#[test]
fn codec_rejects_interior_nul() {
    let data = vec![104u8, 0u8, 105u8];
    assert!(CBuffer::encode(&data).is_none());
}

#[test]
fn codec_empty_content() {
    let buf = CBuffer::encode(&Vec::new()).expect("empty data encodes");
    assert_eq!(buf.decode(), Vec::<u8>::new());
    assert_eq!(buf.into_bytes(), vec![0u8]);
}

#[test]
fn text_codec() {
    let buf = CBuffer::from_text("stylesheet text").expect("text encodes");
    assert_eq!(buf.decode(), b"stylesheet text".to_vec());
}

#[test]
fn array_codec_roundtrip() {
    let items = vec![b"one".to_vec(), b"two".to_vec(), Vec::new()];
    let bufs = encode_array(&items).expect("nul-free items encode");
    assert_eq!(bufs.len(), items.len());
    let back = decode_array(&bufs);
    assert_eq!(back, items);
}

#[test]
fn array_codec_rejects_any_nul() {
    let items = vec![b"one".to_vec(), vec![0u8], b"two".to_vec()];
    assert!(encode_array(&items).is_none());
}
