use lamda_red::style::StyleMap;

#[test]
fn encode_joins_pairs_in_insertion_order() {
    let mut m = StyleMap::new();
    m.insert("shape", "hexagon");
    m.insert("flipH", "0");
    assert_eq!(m.encode(), "shape=hexagon;flipH=0");
}

#[test]
fn encode_of_empty_map_is_empty() {
    assert_eq!(StyleMap::new().encode(), "");
}

#[test]
fn decode_reads_pairs() {
    let m = StyleMap::decode("shape=parallelogram;flipH=1");
    assert_eq!(m.len(), 2);
    assert_eq!(m.get("shape").unwrap().as_str(), "parallelogram");
    assert_eq!(m.get("flipH").unwrap().as_str(), "1");
    assert!(m.get("html").is_none());
}

#[test]
fn decode_splits_each_segment_on_first_equals_only() {
    let m = StyleMap::decode("a=b=c");
    assert_eq!(m.get("a").unwrap().as_str(), "b=c");
}

#[test]
fn decode_drops_segments_without_equals() {
    let m = StyleMap::decode("plain;a=1;;b=2;tail");
    assert_eq!(m.len(), 2);
    assert_eq!(m.get("a").unwrap().as_str(), "1");
    assert_eq!(m.get("b").unwrap().as_str(), "2");
    assert!(m.get("plain").is_none());
}

#[test]
fn decode_of_empty_string_is_empty() {
    assert_eq!(StyleMap::decode("").len(), 0);
}

#[test]
fn decode_keeps_empty_values() {
    let m = StyleMap::decode("k=;j=2");
    assert_eq!(m.len(), 2);
    assert_eq!(m.get("k").unwrap().as_str(), "");
}

#[test]
fn get_returns_first_occurrence() {
    let m = StyleMap::decode("k=1;k=2");
    assert_eq!(m.get("k").unwrap().as_str(), "1");
}

#[test]
fn get_does_not_match_key_prefixes() {
    let m = StyleMap::decode("flipH=1");
    assert!(m.get("flip").is_none());
    assert!(m.get("flipHH").is_none());
    assert_eq!(m.get("flipH").unwrap().as_str(), "1");
}

#[test]
fn encode_then_decode_preserves_clean_attributes() {
    let mut m = StyleMap::new();
    m.insert("shape", "parallelogram");
    m.insert("perimeter", "Qx");
    m.insert("whiteSpace", "wrap");
    m.insert("html", "1");
    m.insert("fixedSize", "1");
    m.insert("flipH", "0");
    let back = StyleMap::decode(m.encode().as_str());
    assert_eq!(back.len(), m.len());
    for key in ["shape", "perimeter", "whiteSpace", "html", "fixedSize", "flipH"] {
        assert_eq!(back.get(key).unwrap(), m.get(key).unwrap());
    }
}

#[test]
fn round_trip_keeps_value_with_equals() {
    let mut m = StyleMap::new();
    m.insert("k", "a=b");
    m.insert("j", "2");
    let back = StyleMap::decode(m.encode().as_str());
    assert_eq!(back.len(), 2);
    assert_eq!(back.get("k").unwrap().as_str(), "a=b");
    assert_eq!(back.get("j").unwrap().as_str(), "2");
}
