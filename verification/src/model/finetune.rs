//! Layered model fine-tuning infrastructure: layer inspection of ONNX
//! bytes and freezing of backbone layers.

use vstd::prelude::*;

use crate::kernel::error::Result;
use crate::kernel::bcnf_catalog::clone_strings;
use crate::text::{chars_of, decimal, decimal_chars, push_all, string_of};

verus! {

/// Represents a layer (node) in an ONNX model graph.
#[derive(Debug, Clone)]
pub struct ModelLayer {
    /// Layer index (0-based from input to output).
    pub index: usize,
    /// ONNX node op_type (e.g. "Conv", "MatMul", "Relu").
    pub op_type: String,
    /// Node name.
    pub name: String,
    /// Input tensor names.
    pub inputs: Vec<String>,
    /// Output tensor names.
    pub outputs: Vec<String>,
    /// Whether this layer's weights are frozen.
    pub frozen: bool,
}

/// The value of a [`ModelLayer`].
pub struct LayerView {
    pub index: nat,
    pub op_type: Seq<char>,
    pub name: Seq<char>,
    pub inputs: Seq<Seq<char>>,
    pub outputs: Seq<Seq<char>>,
    pub frozen: bool,
}

impl View for ModelLayer {
    type V = LayerView;

    open spec fn view(&self) -> LayerView {
        LayerView {
            index: self.index as nat,
            op_type: self.op_type@,
            name: self.name@,
            inputs: self.inputs@.map_values(|s: String| s@),
            outputs: self.outputs@.map_values(|s: String| s@),
            frozen: self.frozen,
        }
    }
}

/// The views of a sequence of layers.
pub open spec fn layer_views(v: Seq<ModelLayer>) -> Seq<LayerView> {
    v.map_values(|l: ModelLayer| l@)
}

/// `l` with its frozen flag set to `f`.
pub open spec fn with_frozen(l: LayerView, f: bool) -> LayerView {
    LayerView { frozen: f, ..l }
}

/// How many layers `freeze_layers` freezes: `freeze_count`, but never all
/// of them (at most `len - 1`, and 0 for no layers).
pub open spec fn freeze_amount(len: nat, freeze_count: nat) -> nat {
    let cap: nat = if len == 0 {
        0
    } else {
        (len - 1) as nat
    };
    if freeze_count < cap {
        freeze_count
    } else {
        cap
    }
}

/// Mark the first N layers as frozen (non-trainable), at most all but the
/// last; the others are marked trainable. Returns how many were frozen.
pub fn freeze_layers(layers: &mut [ModelLayer], freeze_count: usize) -> (r: usize)
    ensures
        r == freeze_amount(old(layers).len() as nat, freeze_count as nat),
        final(layers).len() == old(layers).len(),
        forall|i: int|
            0 <= i < final(layers).len() ==> #[trigger] final(layers)@[i]@ == with_frozen(
                old(layers)@[i]@,
                i < r,
            ),
{
    let len = layers.len();
    let cap = if len == 0 {
        0
    } else {
        len - 1
    };
    let actual_freeze = if freeze_count < cap {
        freeze_count
    } else {
        cap
    };
    let mut i: usize = 0;
    while i < len
        invariant
            i <= len == layers.len() == old(layers).len(),
            actual_freeze <= len,
            forall|j: int|
                0 <= j < len ==> #[trigger] layers@[j]@ == (if j < i {
                    with_frozen(old(layers)@[j]@, j < actual_freeze)
                } else {
                    old(layers)@[j]@
                }),
        decreases len - i,
    {
        let ghost before = layers@;
        layers[i].frozen = i < actual_freeze;
        proof {
            assert(layers@[i as int]@ == with_frozen(before[i as int]@, i < actual_freeze));
            assert forall|j: int| 0 <= j < len && j != i implies layers@[j] == before[j] by {}
        }
        i += 1;
    }
    actual_freeze
}

// ── Layer inspection ────────────────────────────────────────────────────

/// The op types looked for, in order.
pub open spec fn known_op(k: int) -> Seq<char> {
    if k == 0 {
        seq!['C', 'o', 'n', 'v']
    } else if k == 1 {
        seq!['M', 'a', 't', 'M', 'u', 'l']
    } else if k == 2 {
        seq!['G', 'e', 'm', 'm']
    } else if k == 3 {
        seq!['R', 'e', 'l', 'u']
    } else if k == 4 {
        seq!['S', 'i', 'g', 'm', 'o', 'i', 'd']
    } else if k == 5 {
        seq!['T', 'a', 'n', 'h']
    } else if k == 6 {
        seq!['S', 'o', 'f', 't', 'm', 'a', 'x']
    } else if k == 7 {
        seq!['B', 'a', 't', 'c', 'h', 'N', 'o', 'r', 'm', 'a', 'l', 'i', 'z', 'a', 't', 'i', 'o', 'n']
    } else if k == 8 {
        seq!['L', 'a', 'y', 'e', 'r', 'N', 'o', 'r', 'm', 'a', 'l', 'i', 'z', 'a', 't', 'i', 'o', 'n']
    } else if k == 9 {
        seq!['D', 'r', 'o', 'p', 'o', 'u', 't']
    } else if k == 10 {
        seq!['A', 'd', 'd']
    } else if k == 11 {
        seq!['M', 'u', 'l']
    } else if k == 12 {
        seq!['R', 'e', 's', 'h', 'a', 'p', 'e']
    } else if k == 13 {
        seq!['F', 'l', 'a', 't', 't', 'e', 'n']
    } else if k == 14 {
        seq!['M', 'a', 'x', 'P', 'o', 'o', 'l']
    } else if k == 15 {
        seq!['A', 'v', 'e', 'r', 'a', 'g', 'e', 'P', 'o', 'o', 'l']
    } else if k == 16 {
        seq!['G', 'l', 'o', 'b', 'a', 'l', 'A', 'v', 'e', 'r', 'a', 'g', 'e', 'P', 'o', 'o', 'l']
    } else if k == 17 {
        seq!['T', 'r', 'a', 'n', 's', 'p', 'o', 's', 'e']
    } else {
        seq!['C', 'o', 'n', 'c', 'a', 't']
    }
}

/// The number of op types looked for.
pub open spec fn known_op_count() -> int {
    19
}

/// The bytes of ASCII text.
pub open spec fn ascii_bytes(s: Seq<char>) -> Seq<u8> {
    s.map_values(|c: char| c as u8)
}

/// `pat` occurs in `data` at position `i`.
pub open spec fn bytes_match_at(data: Seq<u8>, pat: Seq<u8>, i: int) -> bool {
    0 <= i && i + pat.len() <= data.len() && data.subrange(i, i + pat.len()) == pat
}

/// The number of non-overlapping occurrences of a non-empty `pat` in
/// `data` from position `i` on, found left to right.
pub open spec fn count_from(data: Seq<u8>, pat: Seq<u8>, i: int) -> nat
    decreases data.len() + 1 - i,
{
    if i < 0 || pat.len() == 0 || i + pat.len() > data.len() {
        0
    } else if bytes_match_at(data, pat, i) {
        1 + count_from(data, pat, i + pat.len())
    } else {
        count_from(data, pat, i + 1)
    }
}

/// The layer for the `occ`-th occurrence of `op`, numbered `index`.
pub open spec fn found_layer(op: Seq<char>, occ: nat, index: nat) -> LayerView {
    LayerView {
        index: index,
        op_type: op,
        name: op + seq!['_'] + decimal(occ),
        inputs: seq![seq!['i', 'n', 'p', 'u', 't', '_'] + decimal(index)],
        outputs: seq![seq!['o', 'u', 't', 'p', 'u', 't', '_'] + decimal(index)],
        frozen: false,
    }
}

/// The layers found for the first `k` op types.
pub open spec fn scanned_layers(data: Seq<u8>, k: int) -> Seq<LayerView>
    decreases k,
{
    if k <= 0 {
        Seq::empty()
    } else {
        let prev = scanned_layers(data, k - 1);
        let op = known_op(k - 1);
        prev + Seq::new(
            count_from(data, ascii_bytes(op), 0),
            |o: int| found_layer(op, o as nat, (prev.len() + o) as nat),
        )
    }
}

/// The two-layer structure used when no op type is found.
pub open spec fn fallback_layers() -> Seq<LayerView> {
    seq![
        LayerView {
            index: 0,
            op_type: seq!['M', 'a', 't', 'M', 'u', 'l'],
            name: seq!['b', 'a', 'c', 'k', 'b', 'o', 'n', 'e', '_', '0'],
            inputs: seq![seq!['i', 'n', 'p', 'u', 't', '_', '0']],
            outputs: seq![seq!['h', 'i', 'd', 'd', 'e', 'n', '_', '0']],
            frozen: false,
        },
        LayerView {
            index: 1,
            op_type: seq!['M', 'a', 't', 'M', 'u', 'l'],
            name: seq!['h', 'e', 'a', 'd', '_', '0'],
            inputs: seq![seq!['h', 'i', 'd', 'd', 'e', 'n', '_', '0']],
            outputs: seq![seq!['o', 'u', 't', 'p', 'u', 't', '_', '0']],
            frozen: false,
        },
    ]
}

/// The layers read from raw ONNX bytes.
pub open spec fn extracted_layers(data: Seq<u8>) -> Seq<LayerView> {
    let found = scanned_layers(data, known_op_count());
    if found.len() == 0 {
        fallback_layers()
    } else {
        found
    }
}

fn known_op_chars(k: usize) -> (r: Vec<char>)
    requires
        k < 19,
    ensures
        r@ == known_op(k as int),
{
    let r = if k == 0 {
        vec!['C', 'o', 'n', 'v']
    } else if k == 1 {
        vec!['M', 'a', 't', 'M', 'u', 'l']
    } else if k == 2 {
        vec!['G', 'e', 'm', 'm']
    } else if k == 3 {
        vec!['R', 'e', 'l', 'u']
    } else if k == 4 {
        vec!['S', 'i', 'g', 'm', 'o', 'i', 'd']
    } else if k == 5 {
        vec!['T', 'a', 'n', 'h']
    } else if k == 6 {
        vec!['S', 'o', 'f', 't', 'm', 'a', 'x']
    } else if k == 7 {
        vec!['B', 'a', 't', 'c', 'h', 'N', 'o', 'r', 'm', 'a', 'l', 'i', 'z', 'a', 't', 'i', 'o', 'n']
    } else if k == 8 {
        vec!['L', 'a', 'y', 'e', 'r', 'N', 'o', 'r', 'm', 'a', 'l', 'i', 'z', 'a', 't', 'i', 'o', 'n']
    } else if k == 9 {
        vec!['D', 'r', 'o', 'p', 'o', 'u', 't']
    } else if k == 10 {
        vec!['A', 'd', 'd']
    } else if k == 11 {
        vec!['M', 'u', 'l']
    } else if k == 12 {
        vec!['R', 'e', 's', 'h', 'a', 'p', 'e']
    } else if k == 13 {
        vec!['F', 'l', 'a', 't', 't', 'e', 'n']
    } else if k == 14 {
        vec!['M', 'a', 'x', 'P', 'o', 'o', 'l']
    } else if k == 15 {
        vec!['A', 'v', 'e', 'r', 'a', 'g', 'e', 'P', 'o', 'o', 'l']
    } else if k == 16 {
        vec!['G', 'l', 'o', 'b', 'a', 'l', 'A', 'v', 'e', 'r', 'a', 'g', 'e', 'P', 'o', 'o', 'l']
    } else if k == 17 {
        vec!['T', 'r', 'a', 'n', 's', 'p', 'o', 's', 'e']
    } else {
        vec!['C', 'o', 'n', 'c', 'a', 't']
    };
    assert(r@ =~= known_op(k as int));
    r
}

fn ascii_bytes_of(v: &Vec<char>) -> (r: Vec<u8>)
    requires
        forall|i: int| 0 <= i < v.len() ==> (#[trigger] v@[i]) < '\u{80}',
    ensures
        r@ == ascii_bytes(v@),
{
    let mut r: Vec<u8> = Vec::new();
    let mut i: usize = 0;
    while i < v.len()
        invariant
            i <= v.len(),
            r@ == ascii_bytes(v@).subrange(0, i as int),
        decreases v.len() - i,
    {
        r.push(v[i] as u8);
        assert(r@ =~= ascii_bytes(v@).subrange(0, i + 1));
        i += 1;
    }
    assert(ascii_bytes(v@).subrange(0, v.len() as int) =~= ascii_bytes(v@));
    r
}

fn bytes_match_exec(data: &[u8], pat: &Vec<u8>, i: usize) -> (b: bool)
    ensures
        b == bytes_match_at(data@, pat@, i as int),
{
    if pat.len() > data.len() || i > data.len() - pat.len() {
        return false;
    }
    let mut k: usize = 0;
    while k < pat.len()
        invariant
            i + pat.len() <= data.len(),
            k <= pat.len(),
            forall|m: int| 0 <= m < k ==> data@[i + m] == pat@[m],
        decreases pat.len() - k,
    {
        if data[i + k] != pat[k] {
            assert(data@.subrange(i as int, i + pat.len())[k as int] != pat@[k as int]);
            return false;
        }
        k += 1;
    }
    assert(data@.subrange(i as int, i + pat.len()) =~= pat@);
    true
}

proof fn lemma_count_bound(data: Seq<u8>, pat: Seq<u8>, i: int)
    requires
        0 <= i,
    ensures
        count_from(data, pat, i) <= if i <= data.len() {
            data.len() - i
        } else {
            0
        },
    decreases data.len() + 1 - i,
{
    if i < 0 || pat.len() == 0 || i + pat.len() > data.len() {
    } else if bytes_match_at(data, pat, i) {
        lemma_count_bound(data, pat, i + pat.len());
    } else {
        lemma_count_bound(data, pat, i + 1);
    }
}

/// Non-overlapping occurrences of a non-empty pattern, left to right.
fn count_matches(data: &[u8], pat: &Vec<u8>) -> (n: usize)
    requires
        pat.len() > 0,
    ensures
        n == count_from(data@, pat@, 0),
{
    let mut i: usize = 0;
    let mut n: usize = 0;
    proof {
        lemma_count_bound(data@, pat@, 0);
    }
    while i < data.len() && pat.len() <= data.len() - i
        invariant
            pat.len() > 0,
            i <= data.len(),
            n + count_from(data@, pat@, i as int) == count_from(data@, pat@, 0),
            count_from(data@, pat@, 0) <= data.len(),
        decreases data.len() - i,
    {
        if bytes_match_exec(data, pat, i) {
            n += 1;
            i += pat.len();
        } else {
            i += 1;
        }
    }
    n
}

fn string_list1(v: Vec<char>) -> (r: Vec<String>)
    ensures
        r@.map_values(|s: String| s@) == seq![v@],
{
    let mut r: Vec<String> = Vec::new();
    r.push(string_of(&v));
    assert(r@.map_values(|s: String| s@) =~= seq![v@]);
    r
}

proof fn lemma_scanned_len(data: Seq<u8>, k: int)
    ensures
        scanned_layers(data, k).len() <= (if k > 0 {
            k
        } else {
            0
        }) * data.len(),
    decreases k,
{
    if k > 0 {
        lemma_scanned_len(data, k - 1);
        lemma_count_bound(data, ascii_bytes(known_op(k - 1)), 0);
        assert((k - 1) * data.len() + data.len() == k * data.len()) by (nonlinear_arith);
        if k - 1 <= 0 {
            assert(0int * data.len() == 0);
        }
    }
}

/// Extract layer information from raw ONNX bytes: each known op type, in a
/// fixed order, gives one layer per occurrence of its name in the bytes;
/// with no occurrence at all, a minimal two-layer structure.
///
/// The names are ASCII, so counting them in the bytes gives the count that
/// a lossy UTF-8 decoding of the bytes would give.
pub fn extract_layers_from_bytes(data: &[u8]) -> (r: Result<Vec<ModelLayer>>)
    requires
        data@.len() < 0x0800_0000_0000_0000,
    ensures
        r matches Ok(layers) && layer_views(layers@) == extracted_layers(data@),
{
    let mut layers: Vec<ModelLayer> = Vec::new();
    let mut index: usize = 0;
    let mut k: usize = 0;
    assert(layer_views(layers@) =~= scanned_layers(data@, 0));
    while k < 19
        invariant
            k <= 19,
            data@.len() < 0x0800_0000_0000_0000,
            layer_views(layers@) == scanned_layers(data@, k as int),
            index == layers.len(),
        decreases 19 - k,
    {
        let op = known_op_chars(k);
        assert forall|i: int| 0 <= i < op.len() implies (#[trigger] op@[i]) < '\u{80}' by {}
        let pat = ascii_bytes_of(&op);
        let count = count_matches(data, &pat);
        let ghost prev = layer_views(layers@);
        proof {
            lemma_scanned_len(data@, k as int);
            lemma_count_bound(data@, pat@, 0);
            assert((k as int) * data@.len() + data@.len() <= 20 * data@.len()) by (nonlinear_arith)
                requires
                    k < 19,
            ;
        }
        let mut occ: usize = 0;
        while occ < count
            invariant
                occ <= count,
                count == count_from(data@, ascii_bytes(known_op(k as int)), 0),
                op@ == known_op(k as int),
                index == layers.len() == prev.len() + occ,
                prev.len() + count <= 20 * data@.len(),
                data@.len() < 0x0800_0000_0000_0000,
                layer_views(layers@) == prev + Seq::new(
                    occ as nat,
                    |o: int| found_layer(known_op(k as int), o as nat, (prev.len() + o) as nat),
                ),
            decreases count - occ,
        {
            let mut name = op.clone();
            assert(name@ == op@);
            name.push('_');
            push_all(&mut name, &decimal_chars(occ as u64));
            let mut input: Vec<char> = vec!['i', 'n', 'p', 'u', 't', '_'];
            push_all(&mut input, &decimal_chars(index as u64));
            let mut output: Vec<char> = vec!['o', 'u', 't', 'p', 'u', 't', '_'];
            push_all(&mut output, &decimal_chars(index as u64));
            let layer = ModelLayer {
                index,
                op_type: string_of(&op),
                name: string_of(&name),
                inputs: string_list1(input),
                outputs: string_list1(output),
                frozen: false,
            };
            let ghost lv = layer_views(layers@);
            let ghost old_layers = layers@;
            assert(layer@ == found_layer(known_op(k as int), occ as nat, (prev.len() + occ) as nat))
                by {
                assert(name@ =~= known_op(k as int) + seq!['_'] + decimal(occ as nat));
            }
            layers.push(layer);
            proof {
                let f = |o: int| found_layer(known_op(k as int), o as nat, (prev.len() + o) as nat);
                let target = prev + Seq::new((occ + 1) as nat, f);
                assert(lv == prev + Seq::new(occ as nat, f));
                assert forall|j: int| 0 <= j < layers@.len() implies #[trigger] layer_views(
                    layers@,
                )[j] == target[j] by {
                    if j < lv.len() {
                        assert(layers@[j] == old_layers[j]);
                        assert(layer_views(old_layers)[j] == lv[j]);
                        if j < prev.len() {
                            assert(target[j] == prev[j]);
                            assert(lv[j] == prev[j]);
                        } else {
                            assert(target[j] == f(j - prev.len()));
                            assert(lv[j] == f(j - prev.len()));
                        }
                    } else {
                        assert(j == lv.len());
                        assert(layers@[j] == layer);
                        assert(target[j] == f(occ as int));
                    }
                }
                assert(layer_views(layers@) =~= target);
            }
            index = layers.len();
            occ += 1;
        }
        k += 1;
    }
    if layers.len() == 0 {
        let l0 = ModelLayer {
            index: 0,
            op_type: string_of(&vec!['M', 'a', 't', 'M', 'u', 'l']),
            name: string_of(&vec!['b', 'a', 'c', 'k', 'b', 'o', 'n', 'e', '_', '0']),
            inputs: string_list1(vec!['i', 'n', 'p', 'u', 't', '_', '0']),
            outputs: string_list1(vec!['h', 'i', 'd', 'd', 'e', 'n', '_', '0']),
            frozen: false,
        };
        let l1 = ModelLayer {
            index: 1,
            op_type: string_of(&vec!['M', 'a', 't', 'M', 'u', 'l']),
            name: string_of(&vec!['h', 'e', 'a', 'd', '_', '0']),
            inputs: string_list1(vec!['h', 'i', 'd', 'd', 'e', 'n', '_', '0']),
            outputs: string_list1(vec!['o', 'u', 't', 'p', 'u', 't', '_', '0']),
            frozen: false,
        };
        layers.push(l0);
        layers.push(l1);
        assert(layer_views(layers@) =~= fallback_layers());
    }
    Ok(layers)
}

impl ModelLayer {
    /// Copy a layer.
    pub fn duplicate(&self) -> (r: ModelLayer)
        ensures
            r@ == self@,
    {
        ModelLayer {
            index: self.index,
            op_type: string_of(&chars_of(self.op_type.as_str())),
            name: string_of(&chars_of(self.name.as_str())),
            inputs: clone_strings(&self.inputs),
            outputs: clone_strings(&self.outputs),
            frozen: self.frozen,
        }
    }
}

/// The trainable layers among the first `n`, in order.
pub open spec fn trainable_upto(layers: Seq<LayerView>, n: int) -> Seq<LayerView>
    decreases n,
{
    if n <= 0 {
        Seq::empty()
    } else if !layers[n - 1].frozen {
        trainable_upto(layers, n - 1).push(layers[n - 1])
    } else {
        trainable_upto(layers, n - 1)
    }
}

/// The head of a model: its layers that are not frozen, in order.
pub fn head_layers(layers: &[ModelLayer]) -> (r: Vec<ModelLayer>)
    ensures
        layer_views(r@) == trainable_upto(layer_views(layers@), layers@.len() as int),
{
    let mut r: Vec<ModelLayer> = Vec::new();
    let mut i: usize = 0;
    while i < layers.len()
        invariant
            i <= layers.len(),
            layer_views(r@) == trainable_upto(layer_views(layers@), i as int),
        decreases layers.len() - i,
    {
        assert(layer_views(layers@)[i as int] == layers@[i as int]@);
        if !layers[i].frozen {
            let x = layers[i].duplicate();
            let ghost rv = layer_views(r@);
            r.push(x);
            assert(layer_views(r@) =~= rv.push(x@));
        }
        i += 1;
    }
    r
}

/// The fine-tuning engine: layer freezing, head extraction, retraining and
/// re-registration.
pub struct FinetuneEngine;

fn layer(index: usize, op_type: &str, name: &str, input: &str, output: &str) -> (l: ModelLayer)
    ensures
        l@ == (LayerView {
            index: index as nat,
            op_type: op_type@,
            name: name@,
            inputs: seq![input@],
            outputs: seq![output@],
            frozen: false,
        }),
{
    let mut inputs: Vec<String> = Vec::new();
    inputs.push(string_of(&chars_of(input)));
    let mut outputs: Vec<String> = Vec::new();
    outputs.push(string_of(&chars_of(output)));
    let l = ModelLayer {
        index,
        op_type: string_of(&chars_of(op_type)),
        name: string_of(&chars_of(name)),
        inputs,
        outputs,
        frozen: false,
    };
    assert(l@.inputs =~= seq![input@]);
    assert(l@.outputs =~= seq![output@]);
    l
}

/// The layer structure used when the model's own cannot be inspected:
/// a convolutional backbone of four layers and a two-layer head.
pub open spec fn backbone_spec() -> Seq<LayerView> {
    seq![
        LayerView { index: 0, op_type: "Conv"@, name: "backbone_conv_0"@, inputs: seq!["input"@], outputs: seq!["conv_out_0"@], frozen: false },
        LayerView { index: 1, op_type: "BatchNormalization"@, name: "backbone_bn_0"@, inputs: seq!["conv_out_0"@], outputs: seq!["bn_out_0"@], frozen: false },
        LayerView { index: 2, op_type: "Conv"@, name: "backbone_conv_1"@, inputs: seq!["bn_out_0"@], outputs: seq!["conv_out_1"@], frozen: false },
        LayerView { index: 3, op_type: "BatchNormalization"@, name: "backbone_bn_1"@, inputs: seq!["conv_out_1"@], outputs: seq!["bn_out_1"@], frozen: false },
        LayerView { index: 4, op_type: "Gemm"@, name: "head_fc_0"@, inputs: seq!["bn_out_1"@], outputs: seq!["fc_out_0"@], frozen: false },
        LayerView { index: 5, op_type: "Softmax"@, name: "head_softmax"@, inputs: seq!["fc_out_0"@], outputs: seq!["output"@], frozen: false },
    ]
}

impl FinetuneEngine {
    /// The layer structure of a fine-tuning run (see [`backbone_spec`]).
    pub fn synthetic_layers() -> (r: Vec<ModelLayer>)
        ensures
            layer_views(r@) == backbone_spec(),
    {
        let mut v: Vec<ModelLayer> = Vec::new();
        v.push(layer(0, "Conv", "backbone_conv_0", "input", "conv_out_0"));
        v.push(layer(1, "BatchNormalization", "backbone_bn_0", "conv_out_0", "bn_out_0"));
        v.push(layer(2, "Conv", "backbone_conv_1", "bn_out_0", "conv_out_1"));
        v.push(layer(3, "BatchNormalization", "backbone_bn_1", "conv_out_1", "bn_out_1"));
        v.push(layer(4, "Gemm", "head_fc_0", "bn_out_1", "fc_out_0"));
        v.push(layer(5, "Softmax", "head_softmax", "fc_out_0", "output"));
        assert(layer_views(v@) =~= backbone_spec());
        v
    }
}

} // verus!
