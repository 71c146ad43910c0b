//! The model bundle's layout: a header of seven little-endian `i32` values,
//! then the weights as `f32` values, section after section.

use vstd::prelude::*;

verus! {

/// The shape of a Llama-style model.
pub struct Config {
    pub dim: i32,
    pub hidden_dim: i32,
    pub n_layers: i32,
    pub n_heads: i32,
    pub n_kv_heads: i32,
    pub vocab_size: i32,
    pub seq_len: i32,
}

/// The `i32` stored little-endian in `b[at..at + 4]`.
pub open spec fn le_i32(b: Seq<u8>, at: int) -> i32 {
    (b[at] as int + 256 * b[at + 1] as int + 65536 * b[at + 2] as int + 16777216 * b[at + 3] as int) as i32
}

fn read_le_i32(b: &[u8], at: usize) -> (r: i32)
    requires
        at + 4 <= b@.len(),
    ensures
        r == le_i32(b@, at as int),
{
    let v: u32 = b[at] as u32 + 256 * (b[at + 1] as u32) + 65536 * (b[at + 2] as u32) + 16777216 * (
    b[at + 3] as u32);
    v as i32
}

/// The number of bytes of the header.
pub const HEADER_BYTES: usize = 28;

impl Config {
    /// Reads the header: `dim`, `hidden_dim`, `n_layers`, `n_heads`,
    /// `n_kv_heads`, `vocab_size`, `seq_len`, in this order.
    pub fn from_header(data: &[u8]) -> (c: Config)
        requires
            data@.len() >= HEADER_BYTES,
        ensures
            c.dim == le_i32(data@, 0),
            c.hidden_dim == le_i32(data@, 4),
            c.n_layers == le_i32(data@, 8),
            c.n_heads == le_i32(data@, 12),
            c.n_kv_heads == le_i32(data@, 16),
            c.vocab_size == le_i32(data@, 20),
            c.seq_len == le_i32(data@, 24),
    {
        Config {
            dim: read_le_i32(data, 0),
            hidden_dim: read_le_i32(data, 4),
            n_layers: read_le_i32(data, 8),
            n_heads: read_le_i32(data, 12),
            n_kv_heads: read_le_i32(data, 16),
            vocab_size: read_le_i32(data, 20),
            seq_len: read_le_i32(data, 24),
        }
    }
}

/// The number of `f32` values of each weight section.
pub struct WeightLayout {
    /// The token embedding table: `vocab_size * dim`.
    pub token_embedding: usize,
    /// The number of layers; each has two norm sections, four attention
    /// matrices and three feed-forward matrices.
    pub n_layers: usize,
    /// One norm vector: `dim`.
    pub norm: usize,
    /// One attention matrix: `dim * dim` (zero when there are no layers).
    pub attention: usize,
    /// One feed-forward matrix: `dim * hidden_dim` (zero when there are no layers).
    pub ffn: usize,
    /// Each of the two rotary tables: `seq_len * (dim / n_heads) / 2`.
    pub freq_cis: usize,
    /// The classifier, present when `vocab_size > 0`: `vocab_size * dim`.
    pub classifier: Option<usize>,
    /// All sections together.
    pub total: usize,
}

/// The size of the rotary tables.
pub open spec fn freq_cis_len(c: Config) -> int {
    (c.seq_len as int * (c.dim as int / c.n_heads as int)) / 2
}

/// The number of `f32` values all the sections hold together.
pub open spec fn weight_count(c: Config) -> int {
    let d = c.dim as int;
    let h = c.hidden_dim as int;
    let v = c.vocab_size as int;
    v * d + c.n_layers as int * (2 * d + 4 * (d * d) + 3 * (d * h)) + d + 2 * freq_cis_len(c) + if v > 0 {
        v * d
    } else {
        0
    }
}

/// The header describes a layout: no negative size, at least one head, and a
/// total that fits in `usize`.
pub open spec fn layout_fits(c: Config) -> bool {
    &&& c.dim >= 0
    &&& c.hidden_dim >= 0
    &&& c.n_layers >= 0
    &&& c.n_heads > 0
    &&& c.vocab_size >= 0
    &&& c.seq_len >= 0
    &&& weight_count(c) <= usize::MAX
}

proof fn lemma_nonneg_products(d: int, h: int, v: int, l: int, f: int)
    by (nonlinear_arith)
    requires
        0 <= d,
        0 <= h,
        0 <= v,
        0 <= l,
        0 <= f,
    ensures
        0 <= d * d,
        0 <= d * h,
        0 <= v * d,
        d * d <= l * (2 * d + 4 * (d * d) + 3 * (d * h)) || l == 0,
        d * h <= l * (2 * d + 4 * (d * d) + 3 * (d * h)) || l == 0,
        d <= l * (2 * d + 4 * (d * d) + 3 * (d * h)) || l == 0,
        0 <= l * (2 * d + 4 * (d * d) + 3 * (d * h)),
        l > 0 ==> 2 * d + 4 * (d * d) + 3 * (d * h) <= l * (2 * d + 4 * (d * d) + 3 * (d * h)),
{
}

impl WeightLayout {
    /// Whether `c` describes a layout (see `layout_fits`).
    pub fn fits(c: &Config) -> (r: bool)
        ensures
            r == layout_fits(*c),
    {
        if c.dim < 0 || c.hidden_dim < 0 || c.n_layers < 0 || c.n_heads <= 0 || c.vocab_size < 0
            || c.seq_len < 0 {
            return false;
        }
        let d = c.dim as u128;
        let h = c.hidden_dim as u128;
        let v = c.vocab_size as u128;
        let l = c.n_layers as u128;
        let s = c.seq_len as u128;
        let nh = c.n_heads as u128;
        assert(d * d <= 0x4000_0000_0000_0000) by (nonlinear_arith)
            requires d < 0x8000_0000;
        assert(d * h <= 0x4000_0000_0000_0000) by (nonlinear_arith)
            requires d < 0x8000_0000, h < 0x8000_0000;
        assert(v * d <= 0x4000_0000_0000_0000) by (nonlinear_arith)
            requires d < 0x8000_0000, v < 0x8000_0000;
        let per_layer = 2 * d + 4 * (d * d) + 3 * (d * h);
        assert(l * per_layer <= 0x8000_0000 * 0x2_0000_0000_0000_0000) by (nonlinear_arith)
            requires l < 0x8000_0000, per_layer <= 0x2_0000_0000_0000_0000;
        let head = d / nh;
        assert(head <= d) by (nonlinear_arith)
            requires nh > 0, head == d / nh;
        assert(s * head <= 0x4000_0000_0000_0000) by (nonlinear_arith)
            requires s < 0x8000_0000, head < 0x8000_0000;
        let freq = (s * head) / 2;
        let cls = if v > 0 { v * d } else { 0 };
        let total = v * d + l * per_layer + d + 2 * freq + cls;
        assert(total == weight_count(*c));
        total <= usize::MAX as u128
    }

    /// The sections that `c` describes.
    pub fn of(c: &Config) -> (w: WeightLayout)
        requires
            layout_fits(*c),
        ensures
            w.token_embedding == c.vocab_size * c.dim,
            w.n_layers == c.n_layers,
            w.norm == c.dim,
            w.attention == (if c.n_layers > 0 { c.dim * c.dim } else { 0 }),
            w.ffn == (if c.n_layers > 0 { c.dim * c.hidden_dim } else { 0 }),
            w.freq_cis == freq_cis_len(*c),
            w.freq_cis == (c.seq_len as int * (c.dim as int / c.n_heads as int)) / 2,
            w.classifier == (if c.vocab_size > 0 {
                Some((c.vocab_size * c.dim) as usize)
            } else {
                None
            }),
            w.total == weight_count(*c),
    {
        let ghost dd = c.dim as int;
        let ghost hh = c.hidden_dim as int;
        let ghost vv = c.vocab_size as int;
        let ghost ll = c.n_layers as int;
        proof {
            lemma_nonneg_products(dd, hh, vv, ll, freq_cis_len(*c));
            assert(0 <= freq_cis_len(*c)) by (nonlinear_arith)
                requires c.seq_len >= 0, c.dim >= 0, c.n_heads > 0;
        }
        let d = c.dim as usize;
        let h = c.hidden_dim as usize;
        let v = c.vocab_size as usize;
        let l = c.n_layers as usize;
        let s = c.seq_len as usize;
        let nh = c.n_heads as usize;
        let token_embedding = v * d;
        let (attention, ffn, layers) = if l > 0 {
            let attention = d * d;
            let ffn = d * h;
            let per_layer = 2 * d + 4 * attention + 3 * ffn;
            (attention, ffn, l * per_layer)
        } else {
            (0, 0, 0)
        };
        let head = d / nh;
        proof {
            assert(head <= d) by (nonlinear_arith)
                requires nh > 0, head == d / nh;
            assert(s * head <= s * d) by (nonlinear_arith)
                requires head <= d;
        }
        let freq = s * head / 2;
        let classifier = if c.vocab_size > 0 { Some(v * d) } else { None };
        let total = token_embedding + layers + d + 2 * freq + match classifier { Some(x) => x, None => 0 };
        WeightLayout {
            token_embedding,
            n_layers: l,
            norm: d,
            attention,
            ffn,
            freq_cis: freq,
            classifier,
            total,
        }
    }
}

/// The lengths of the sections in the order the bundle stores them: the token
/// embedding table; the attention norm of every layer; the query, key, value
/// and output matrices, each for every layer; the feed-forward norm of every
/// layer; the three feed-forward matrices, each for every layer; the final
/// norm; the two rotary tables; the classifier when there is one.
pub open spec fn section_lengths(w: WeightLayout) -> Seq<usize> {
    let n = w.n_layers as nat;
    seq![w.token_embedding] + Seq::new(n, |i: int| w.norm) + Seq::new(4 * n, |i: int| w.attention) + Seq::new(
        n,
        |i: int| w.norm,
    ) + Seq::new(3 * n, |i: int| w.ffn) + seq![w.norm, w.freq_cis, w.freq_cis] + match w.classifier {
        Some(c) => seq![c],
        None => Seq::empty(),
    }
}

/// The sum of the first `k` elements of `s`.
pub open spec fn sum_first(s: Seq<usize>, k: int) -> int
    decreases k,
{
    if k <= 0 {
        0
    } else {
        sum_first(s, k - 1) + s[k - 1]
    }
}

proof fn lemma_sum_first_monotone(s: Seq<usize>, i: int, j: int)
    requires
        0 <= i <= j,
    ensures
        sum_first(s, i) <= sum_first(s, j),
    decreases j - i,
{
    if i < j {
        lemma_sum_first_monotone(s, i, j - 1);
    }
}

/// Appends `k` copies of `x`.
fn push_copies(v: &mut Vec<usize>, x: usize, k: usize)
    ensures
        final(v)@ == old(v)@ + Seq::new(k as nat, |i: int| x),
{
    let ghost start = v@;
    let mut i: usize = 0;
    while i < k
        invariant
            i <= k,
            v@ == start + Seq::new(i as nat, |j: int| x),
        decreases k - i,
    {
        v.push(x);
        i = i + 1;
        assert(v@ =~= start + Seq::new(i as nat, |j: int| x));
    }
}

impl WeightLayout {
    /// The section lengths in storage order (see `section_lengths`).
    fn lengths(&self) -> (r: Vec<usize>)
        ensures
            r@ == section_lengths(*self),
    {
        let n = self.n_layers;
        let mut r: Vec<usize> = Vec::new();
        r.push(self.token_embedding);
        push_copies(&mut r, self.norm, n);
        push_copies(&mut r, self.attention, n);
        push_copies(&mut r, self.attention, n);
        push_copies(&mut r, self.attention, n);
        push_copies(&mut r, self.attention, n);
        push_copies(&mut r, self.norm, n);
        push_copies(&mut r, self.ffn, n);
        push_copies(&mut r, self.ffn, n);
        push_copies(&mut r, self.ffn, n);
        r.push(self.norm);
        r.push(self.freq_cis);
        r.push(self.freq_cis);
        match self.classifier {
            Some(c) => r.push(c),
            None => {},
        }
        let ghost nn = n as nat;
        assert(Seq::new(nn, |i: int| self.attention) + Seq::new(nn, |i: int| self.attention) + Seq::new(
            nn,
            |i: int| self.attention,
        ) + Seq::new(nn, |i: int| self.attention) =~= Seq::new(4 * nn, |i: int| self.attention));
        assert(Seq::new(nn, |i: int| self.ffn) + Seq::new(nn, |i: int| self.ffn) + Seq::new(nn, |i: int| self.ffn)
            =~= Seq::new(3 * nn, |i: int| self.ffn));
        assert(r@ =~= section_lengths(*self));
        r
    }

    /// Where each section starts among the weights, and its length, in storage
    /// order; `None` when the offsets do not fit in `usize`.
    pub fn sections(&self) -> (r: Option<Vec<(usize, usize)>>)
        ensures
            r is Some <==> sum_first(section_lengths(*self), section_lengths(*self).len() as int) <= usize::MAX,
            r matches Some(v) ==> v@.len() == section_lengths(*self).len() && forall|i: int|
                0 <= i < v@.len() ==> #[trigger] v@[i] == (
                    sum_first(section_lengths(*self), i) as usize,
                    section_lengths(*self)[i],
                ),
    {
        let lens = self.lengths();
        let ghost ls = lens@;
        let mut out: Vec<(usize, usize)> = Vec::new();
        let mut at: usize = 0;
        let mut i: usize = 0;
        while i < lens.len()
            invariant
                i <= lens.len(),
                ls == lens@,
                ls == section_lengths(*self),
                at == sum_first(ls, i as int),
                out@.len() == i,
                forall|j: int| 0 <= j < i ==> #[trigger] out@[j] == (sum_first(ls, j) as usize, ls[j]),
            decreases lens.len() - i,
        {
            out.push((at, lens[i]));
            match at.checked_add(lens[i]) {
                Some(next) => {
                    at = next;
                },
                None => {
                    proof {
                        lemma_sum_first_monotone(ls, i as int + 1, ls.len() as int);
                    }
                    return None;
                },
            }
            i = i + 1;
        }
        Some(out)
    }
}

} // verus!
