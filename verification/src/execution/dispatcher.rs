//! Heterogeneous hardware dispatcher: device types and the choice of a
//! device slot for a job.

use vstd::prelude::*;

use crate::execution::logic_optimizer_rule::{digits_value, lemma_digits_value_prefix};
use crate::text::{
    all_digits, chars_of, is_digit, lemma_split_nonempty, push_str, slice, split, split_exec, string_of, trim,
    trim_chars, views,
};

verus! {

/// Type of compute device.
#[derive(Debug, Clone, Copy, PartialEq, Eq, Hash, Structural)]
pub enum DeviceType {
    /// General-purpose CPU core(s).
    Cpu,
    /// NVIDIA GPU (CUDA).
    CudaGpu,
    /// Apple GPU (Metal).
    MetalGpu,
    /// Neural Processing Unit (CoreML / other).
    Npu,
}

impl DeviceType {
    /// The device's display name (what `Display` writes).
    pub fn to_string(&self) -> (r: String)
        ensures
            r@ == match self {
                DeviceType::Cpu => "CPU"@,
                DeviceType::CudaGpu => "CUDA GPU"@,
                DeviceType::MetalGpu => "Metal GPU"@,
                DeviceType::Npu => "NPU"@,
            },
    {
        let mut v: Vec<char> = Vec::new();
        match self {
            DeviceType::Cpu => push_str(&mut v, "CPU"),
            DeviceType::CudaGpu => push_str(&mut v, "CUDA GPU"),
            DeviceType::MetalGpu => push_str(&mut v, "Metal GPU"),
            DeviceType::Npu => push_str(&mut v, "NPU"),
        }
        string_of(&v)
    }
}

/// The slots a job may go to: those of its preferred type when the pool
/// has any, otherwise every slot.
pub open spec fn candidate_slot(devices: Seq<DeviceType>, preferred: Option<DeviceType>, i: int) -> bool {
    match preferred {
        Some(p) => if exists|k: int| 0 <= k < devices.len() && devices[k] == p {
            devices[i] == p
        } else {
            true
        },
        None => true,
    }
}

/// Pick the slot for a job: among the candidate slots, the least loaded;
/// on a tie, the first. `None` for an empty pool.
pub fn select_slot(devices: &Vec<DeviceType>, loads: &Vec<usize>, preferred: Option<DeviceType>) -> (r:
    Option<usize>)
    requires
        devices@.len() == loads@.len(),
    ensures
        r is None <==> devices@.len() == 0,
        r matches Some(i) ==> {
            &&& i < devices@.len()
            &&& candidate_slot(devices@, preferred, i as int)
            &&& forall|k: int|
                0 <= k < devices@.len() && candidate_slot(devices@, preferred, k) ==> loads@[i as int]
                    <= loads@[k]
            &&& forall|k: int|
                0 <= k < i && candidate_slot(devices@, preferred, k) ==> loads@[i as int] < loads@[k]
        },
{
    let mut any_preferred = false;
    match preferred {
        Some(p) => {
            let mut k: usize = 0;
            while k < devices.len()
                invariant
                    k <= devices.len(),
                    preferred == Some(p),
                    any_preferred == exists|j: int| 0 <= j < k && devices@[j] == p,
                decreases devices.len() - k,
            {
                if devices[k] == p {
                    any_preferred = true;
                }
                k += 1;
            }
        },
        None => {},
    }
    let mut best: Option<usize> = None;
    let mut i: usize = 0;
    while i < devices.len()
        invariant
            i <= devices.len() == loads.len(),
            preferred is Some ==> any_preferred == exists|j: int|
                0 <= j < devices@.len() && devices@[j] == preferred->0,
            preferred is None ==> !any_preferred,
            match best {
                Some(b) => {
                    &&& b < i
                    &&& candidate_slot(devices@, preferred, b as int)
                    &&& forall|k: int|
                        0 <= k < i && candidate_slot(devices@, preferred, k) ==> loads@[b as int]
                            <= loads@[k]
                    &&& forall|k: int|
                        0 <= k < b && candidate_slot(devices@, preferred, k) ==> loads@[b as int]
                            < loads@[k]
                },
                None => forall|k: int| 0 <= k < i ==> !candidate_slot(devices@, preferred, k),
            },
        decreases devices.len() - i,
    {
        let candidate = match preferred {
            Some(p) => !any_preferred || devices[i] == p,
            None => true,
        };
        if candidate {
            let better = match best {
                Some(b) => loads[i] < loads[b],
                None => true,
            };
            if better {
                best = Some(i);
            }
        }
        i += 1;
    }
    proof {
        if devices@.len() > 0 && best is None {
            match preferred {
                Some(p) => {
                    if any_preferred {
                        let j = choose|j: int| 0 <= j < devices@.len() && devices@[j] == p;
                        assert(candidate_slot(devices@, preferred, j));
                    } else {
                        assert(candidate_slot(devices@, preferred, 0));
                    }
                },
                None => {
                    assert(candidate_slot(devices@, preferred, 0));
                },
            }
        }
    }
    best
}


// ── GPUs reported by `nvidia-smi` ──────────────────────────────────────

/// What `str::parse::<u64>` gives: an optional `+`, then one or more ASCII
/// digits, whose value must fit in a `u64`.
pub open spec fn parse_u64_spec(s: Seq<char>) -> Option<nat> {
    let digits = if s.len() > 0 && s[0] == '+' {
        s.drop_first()
    } else {
        s
    };
    if digits.len() > 0 && all_digits(digits) && digits_value(digits) <= u64::MAX {
        Some(digits_value(digits))
    } else {
        None
    }
}

fn parse_u64_chars(s: &Vec<char>) -> (r: Option<u64>)
    ensures
        match r {
            Some(v) => parse_u64_spec(s@) == Some(v as nat),
            None => parse_u64_spec(s@) is None,
        },
{
    let n = s.len();
    let from: usize = if n > 0 && s[0] == '+' {
        1
    } else {
        0
    };
    let ghost digits = s@.subrange(from as int, n as int);
    proof {
        if from == 1 {
            assert(digits =~= s@.drop_first());
        } else {
            assert(digits =~= s@);
        }
    }
    if from >= n {
        return None;
    }
    let mut acc: u64 = 0;
    let mut i: usize = from;
    while i < n
        invariant
            from <= i <= n,
            n == s.len(),
            from <= 1,
            digits == s@.subrange(from as int, n as int),
            parse_u64_spec(s@) == (if digits.len() > 0 && all_digits(digits) && digits_value(digits)
                <= u64::MAX {
                Some(digits_value(digits))
            } else {
                None::<nat>
            }),
            all_digits(s@.subrange(from as int, i as int)),
            acc as nat == digits_value(s@.subrange(from as int, i as int)),
        decreases n - i,
    {
        let c = s[i];
        if !('0' <= c && c <= '9') {
            assert(!is_digit(digits[i - from]));
            return None;
        }
        let d: u64 = (c as u32 - 48) as u64;
        let ghost pre = s@.subrange(from as int, i as int);
        let ghost post = s@.subrange(from as int, i + 1);
        assert(post.drop_last() =~= pre);
        assert(post.last() == c);
        assert(digits_value(post) == acc * 10 + d);
        match acc.checked_mul(10) {
            Some(m) => match m.checked_add(d) {
                Some(next) => {
                    acc = next;
                },
                None => {
                    proof {
                        lemma_digits_value_prefix(digits, i + 1 - from);
                        assert(digits.subrange(0, i + 1 - from) =~= post);
                    }
                    return None;
                },
            },
            None => {
                proof {
                    lemma_digits_value_prefix(digits, i + 1 - from);
                    assert(digits.subrange(0, i + 1 - from) =~= post);
                }
                return None;
            },
        }
        i += 1;
    }
    assert(s@.subrange(from as int, n as int) =~= digits);
    Some(acc)
}

/// `s` without one trailing carriage return.
pub open spec fn strip_cr(s: Seq<char>) -> Seq<char> {
    if s.len() > 0 && s.last() == '\r' {
        s.drop_last()
    } else {
        s
    }
}

/// `str::lines`: the text between newlines, each without a carriage return
/// before its newline; no last line after a final newline.
pub open spec fn lines_spec(s: Seq<char>) -> Seq<Seq<char>> {
    let p = split(s, seq!['\n']);
    let body = p.drop_last().map_values(|x: Seq<char>| strip_cr(x));
    if p.last().len() == 0 {
        body
    } else {
        body.push(p.last())
    }
}

/// A GPU as `nvidia-smi` reports it, memory in bytes.
#[derive(Debug, Clone, PartialEq, Eq)]
pub struct GpuReport {
    pub name: String,
    pub free_bytes: u64,
    pub total_bytes: u64,
}

/// The value of a [`GpuReport`].
pub struct GpuView {
    pub name: Seq<char>,
    pub free_bytes: nat,
    pub total_bytes: nat,
}

/// The reports as values.
pub open spec fn gpu_views(v: Seq<GpuReport>) -> Seq<GpuView> {
    v.map_values(
        |g: GpuReport| GpuView { name: g.name@, free_bytes: g.free_bytes as nat, total_bytes: g.total_bytes as nat },
    )
}

/// Bytes of a MiB count as a `u64` multiplication wraps them; an
/// unreadable count is 0.
pub open spec fn mib_bytes(count: Option<nat>) -> nat {
    match count {
        Some(n) => (n * 1048576) % 0x1_0000_0000_0000_0000,
        None => 0,
    }
}

/// The trimmed comma-separated fields of a line.
pub open spec fn csv_fields(line: Seq<char>) -> Seq<Seq<char>> {
    split(line, seq![',']).map_values(|x: Seq<char>| trim(x))
}

/// The GPU a line of `nvidia-smi --query-gpu=name,memory.free,memory.total
/// --format=csv,noheader,nounits` names: one with at least three fields.
pub open spec fn gpu_line(line: Seq<char>) -> Option<GpuView> {
    let f = csv_fields(line);
    if f.len() >= 3 {
        Some(
            GpuView {
                name: f[0],
                free_bytes: mib_bytes(parse_u64_spec(f[1])),
                total_bytes: mib_bytes(parse_u64_spec(f[2])),
            },
        )
    } else {
        None
    }
}

/// The GPUs of the first `n` lines, in order.
pub open spec fn gpus_of(lines: Seq<Seq<char>>, n: int) -> Seq<GpuView>
    decreases n,
{
    if n <= 0 {
        Seq::empty()
    } else {
        match gpu_line(lines[n - 1]) {
            Some(g) => gpus_of(lines, n - 1).push(g),
            None => gpus_of(lines, n - 1),
        }
    }
}

fn strip_cr_exec(v: &Vec<char>) -> (r: Vec<char>)
    ensures
        r@ == strip_cr(v@),
{
    if v.len() > 0 && v[v.len() - 1] == '\r' {
        slice(v, 0, v.len() - 1)
    } else {
        slice(v, 0, v.len())
    }
}

fn lines_exec(text: &Vec<char>) -> (r: Vec<Vec<char>>)
    ensures
        views(r@) == lines_spec(text@),
{
    let nl = vec!['\n'];
    assert(nl@ =~= seq!['\n']);
    let pieces = split_exec(text, &nl);
    let ghost p = split(text@, seq!['\n']);
    proof {
        lemma_split_nonempty(text@, seq!['\n']);
    }
    let last = pieces.len() - 1;
    let mut r: Vec<Vec<char>> = Vec::new();
    let mut i: usize = 0;
    while i < last
        invariant
            i <= last,
            last + 1 == pieces.len(),
            views(pieces@) == p,
            views(r@) == p.drop_last().map_values(|x: Seq<char>| strip_cr(x)).subrange(0, i as int),
        decreases last - i,
    {
        let line = strip_cr_exec(&pieces[i]);
        let ghost before = views(r@);
        r.push(line);
        assert(views(r@) =~= before.push(strip_cr(p[i as int])));
        assert(p.drop_last().map_values(|x: Seq<char>| strip_cr(x)).subrange(0, i + 1) =~= before.push(
            strip_cr(p[i as int]),
        ));
        i += 1;
    }
    assert(p.drop_last().map_values(|x: Seq<char>| strip_cr(x)).subrange(0, last as int) =~= p.drop_last().map_values(
        |x: Seq<char>| strip_cr(x),
    ));
    if pieces[last].len() > 0 {
        let ghost before = views(r@);
        let tail = slice(&pieces[last], 0, pieces[last].len());
        assert(views(pieces@)[last as int] == pieces@[last as int]@);
        assert(tail@ == p.last());
        r.push(tail);
        assert(views(r@) =~= before.push(p.last()));
    }
    r
}

fn mib_bytes_exec(count: Option<u64>) -> (r: u64)
    ensures
        r as nat == mib_bytes(
            match count {
                Some(v) => Some(v as nat),
                None => None,
            },
        ),
{
    match count {
        Some(n) => {
            let wide: u128 = (n as u128) * 1048576;
            let r = (wide % 0x1_0000_0000_0000_0000u128) as u64;
            r
        },
        None => 0,
    }
}

/// The GPUs that the output of `nvidia-smi --query-gpu=name,memory.free,
/// memory.total --format=csv,noheader,nounits` lists (see [`gpu_line`]),
/// line by line.
pub fn nvidia_smi_gpus(output: &str) -> (r: Vec<GpuReport>)
    ensures
        gpu_views(r@) == gpus_of(lines_spec(output@), lines_spec(output@).len() as int),
{
    let lines = lines_exec(&chars_of(output));
    let ghost ls = lines_spec(output@);
    let comma = vec![','];
    assert(comma@ =~= seq![',']);
    let mut r: Vec<GpuReport> = Vec::new();
    let mut i: usize = 0;
    while i < lines.len()
        invariant
            i <= lines.len(),
            views(lines@) == ls,
            comma@ == seq![','],
            gpu_views(r@) == gpus_of(ls, i as int),
        decreases lines.len() - i,
    {
        let raw = split_exec(&lines[i], &comma);
        assert(views(raw@) == split(ls[i as int], seq![',']));
        if raw.len() >= 3 {
            let f0 = trim_chars(&raw[0]);
            let f1 = trim_chars(&raw[1]);
            let f2 = trim_chars(&raw[2]);
            let ghost f = csv_fields(ls[i as int]);
            assert(f[0] == f0@ && f[1] == f1@ && f[2] == f2@);
            let free = mib_bytes_exec(parse_u64_chars(&f1));
            let total = mib_bytes_exec(parse_u64_chars(&f2));
            let g = GpuReport { name: string_of(&f0), free_bytes: free, total_bytes: total };
            let ghost before = gpu_views(r@);
            r.push(g);
            assert(gpu_views(r@) =~= before.push(gpu_line(ls[i as int])->0));
        } else {
            assert(gpu_line(ls[i as int]) is None);
        }
        i += 1;
    }
    r
}

} // verus!
