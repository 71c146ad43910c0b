use danger_os::inference::{Config, WeightLayout};

fn header(vals: [i32; 7]) -> Vec<u8> {
    let mut out = Vec::new();
    for v in vals {
        out.extend_from_slice(&v.to_le_bytes());
    }
    out.extend_from_slice(&[9, 9, 9]);
    out
}

#[test]
fn header_is_read_in_order() {
    let c = Config::from_header(&header([64, 172, 5, 8, 4, 512, 512]));
    assert_eq!((c.dim, c.hidden_dim, c.n_layers, c.n_heads, c.n_kv_heads, c.vocab_size, c.seq_len), (64, 172, 5, 8, 4, 512, 512));
    let c = Config::from_header(&header([-1, 0, 0, 0, 0, -512, 7]));
    assert_eq!(c.dim, -1);
    assert_eq!(c.vocab_size, -512);
}

#[test]
fn layout_of_small_model() {
    let c = Config::from_header(&header([4, 8, 2, 2, 2, 10, 6]));
    assert!(WeightLayout::fits(&c));
    let w = WeightLayout::of(&c);
    assert_eq!(w.token_embedding, 40);
    assert_eq!(w.n_layers, 2);
    assert_eq!(w.norm, 4);
    assert_eq!(w.attention, 16);
    assert_eq!(w.ffn, 32);
    assert_eq!(w.freq_cis, 6);
    assert_eq!(w.classifier, Some(40));
    assert_eq!(w.total, 40 + 2 * (8 + 64 + 96) + 4 + 12 + 40);
}

#[test]
fn layout_without_vocab_has_no_classifier() {
    let c = Config::from_header(&header([4, 8, 0, 1, 1, 0, 3]));
    assert!(WeightLayout::fits(&c));
    let w = WeightLayout::of(&c);
    assert_eq!(w.classifier, None);
    assert_eq!(w.attention, 0);
    assert_eq!(w.freq_cis, 6);
    assert_eq!(w.total, 4 + 2 * 6);
}

#[test]
fn bad_headers_do_not_fit() {
    assert!(!WeightLayout::fits(&Config::from_header(&header([4, 8, 2, 0, 2, 10, 6]))));
    assert!(!WeightLayout::fits(&Config::from_header(&header([-4, 8, 2, 2, 2, 10, 6]))));
    assert!(!WeightLayout::fits(&Config::from_header(&header([i32::MAX, i32::MAX, i32::MAX, 1, 1, i32::MAX, i32::MAX]))));
}

#[test]
fn sections_follow_storage_order() {
    let c = Config::from_header(&header([4, 8, 2, 2, 2, 10, 6]));
    let w = WeightLayout::of(&c);
    let s = w.sections().unwrap();
    let lens: Vec<usize> = s.iter().map(|&(_, l)| l).collect();
    assert_eq!(lens, vec![40, 4, 4, 16, 16, 16, 16, 16, 16, 16, 16, 4, 4, 32, 32, 32, 32, 32, 32, 4, 6, 6, 40]);
    let mut at = 0;
    for &(start, len) in &s {
        assert_eq!(start, at);
        at += len;
    }
    assert_eq!(at, w.total);
    assert_eq!(s[1], (40, 4));
    assert_eq!(s[3], (48, 16));
}

#[test]
fn sections_without_classifier() {
    let c = Config::from_header(&header([4, 8, 0, 1, 1, 0, 3]));
    let w = WeightLayout::of(&c);
    assert_eq!(w.sections().unwrap(), vec![(0, 0), (0, 4), (4, 6), (10, 6)]);
}

#[test]
fn sections_refuse_overflowing_offsets() {
    let w = WeightLayout {
        token_embedding: usize::MAX,
        n_layers: 0,
        norm: 1,
        attention: 0,
        ffn: 0,
        freq_cis: 0,
        classifier: None,
        total: 0,
    };
    assert!(w.sections().is_none());
}
