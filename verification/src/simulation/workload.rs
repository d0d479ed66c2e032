use vstd::prelude::*;
use crate::text::{
    is_trimmed_of, is_whitespace, parse_i64, parse_i64_spec, parse_u64, parse_u64_spec, split, split_spec, trim,
};

verus! {

/// Why a workload row is refused.
#[derive(Debug, Clone, Copy, PartialEq, Eq, Structural)]
pub enum WorkloadError {
    /// Fewer than ten comma-separated fields.
    MissingFields,
    /// A number that must be read is not an integer of its type.
    BadNumber,
    /// A label or selector entry that is not exactly `key:value`.
    BadPair,
    /// A load with the wrong number of fields for its kind.
    BadLoadFields,
    /// A load kind other than `constant` and `busybox`.
    UnknownLoad,
}

/// The load of a pod as a row gives it; durations and times are real
/// numbers, kept as text for the simulation to read.
#[derive(Debug)]
pub enum CsvLoad {
    Constant { cpu: u64, memory: u64, duration: String },
    BusyBox {
        cpu_down: u64,
        memory_down: u64,
        cpu_up: u64,
        memory_up: u64,
        duration: String,
        shift_time: String,
    },
}

/// The model of a row's load.
pub enum CsvLoadView {
    Constant { cpu: u64, memory: u64, duration: Seq<char> },
    BusyBox {
        cpu_down: u64,
        memory_down: u64,
        cpu_up: u64,
        memory_up: u64,
        duration: Seq<char>,
        shift_time: Seq<char>,
    },
}

impl View for CsvLoad {
    type V = CsvLoadView;

    open spec fn view(&self) -> CsvLoadView {
        match self {
            CsvLoad::Constant { cpu, memory, duration } => CsvLoadView::Constant {
                cpu: *cpu,
                memory: *memory,
                duration: duration@,
            },
            CsvLoad::BusyBox { cpu_down, memory_down, cpu_up, memory_up, duration, shift_time } => CsvLoadView::BusyBox {
                cpu_down: *cpu_down,
                memory_down: *memory_down,
                cpu_up: *cpu_up,
                memory_up: *memory_up,
                duration: duration@,
                shift_time: shift_time@,
            },
        }
    }
}

/// A group of pods as one row of a workload file describes it: how many,
/// when they arrive (a real number, as text), their resources, priority,
/// labels, node selector and load.
#[derive(Debug)]
pub struct CsvPodRow {
    pub amount: u64,
    pub arrival_time: String,
    pub request_cpu: u64,
    pub request_memory: u64,
    pub limit_cpu: u64,
    pub limit_memory: u64,
    pub priority: i64,
    pub labels: Vec<(String, String)>,
    pub node_selector: Vec<(String, String)>,
    pub load: CsvLoad,
}

/// The model of a row.
pub struct CsvPodRowView {
    pub amount: u64,
    pub arrival_time: Seq<char>,
    pub request_cpu: u64,
    pub request_memory: u64,
    pub limit_cpu: u64,
    pub limit_memory: u64,
    pub priority: i64,
    pub labels: Seq<(Seq<char>, Seq<char>)>,
    pub node_selector: Seq<(Seq<char>, Seq<char>)>,
    pub load: CsvLoadView,
}

pub open spec fn pairs_view(v: Seq<(String, String)>) -> Seq<(Seq<char>, Seq<char>)> {
    v.map_values(|p: (String, String)| (p.0@, p.1@))
}

impl View for CsvPodRow {
    type V = CsvPodRowView;

    open spec fn view(&self) -> CsvPodRowView {
        CsvPodRowView {
            amount: self.amount,
            arrival_time: self.arrival_time@,
            request_cpu: self.request_cpu,
            request_memory: self.request_memory,
            limit_cpu: self.limit_cpu,
            limit_memory: self.limit_memory,
            priority: self.priority,
            labels: pairs_view(self.labels@),
            node_selector: pairs_view(self.node_selector@),
            load: self.load@,
        }
    }
}

pub open spec fn word_constant() -> Seq<char> {
    seq!['c', 'o', 'n', 's', 't', 'a', 'n', 't']
}

pub open spec fn word_busybox() -> Seq<char> {
    seq!['b', 'u', 's', 'y', 'b', 'o', 'x']
}

/// The `key:value` entries of `;`-separated pieces, empty pieces skipped;
/// none when a non-empty piece is not exactly one key and one value.
pub open spec fn pairs_of(pieces: Seq<Seq<char>>) -> Option<Seq<(Seq<char>, Seq<char>)>>
    decreases pieces.len(),
{
    if pieces.len() == 0 {
        Some(Seq::empty())
    } else {
        let rest = pairs_of(pieces.drop_first());
        if pieces[0].len() == 0 {
            rest
        } else {
            let kv = split_spec(pieces[0], ':');
            if kv.len() != 2 {
                None
            } else {
                match rest {
                    Some(r) => Some(seq![(kv[0], kv[1])] + r),
                    None => None,
                }
            }
        }
    }
}

/// The load a field describes: `constant;cpu;memory;duration` or
/// `busybox;cpu_down;memory_down;cpu_up;memory_up;duration;shift_time`.
pub open spec fn load_of(field: Seq<char>) -> Result<CsvLoadView, WorkloadError> {
    let parts = split_spec(field, ';');
    if parts[0] == word_constant() {
        if parts.len() != 4 {
            Err(WorkloadError::BadLoadFields)
        } else if parse_u64_spec(parts[1]) is None || parse_u64_spec(parts[2]) is None {
            Err(WorkloadError::BadNumber)
        } else {
            Ok(
                CsvLoadView::Constant {
                    cpu: parse_u64_spec(parts[1])->0,
                    memory: parse_u64_spec(parts[2])->0,
                    duration: parts[3],
                },
            )
        }
    } else if parts[0] == word_busybox() {
        if parts.len() != 7 {
            Err(WorkloadError::BadLoadFields)
        } else if parse_u64_spec(parts[1]) is None || parse_u64_spec(parts[2]) is None || parse_u64_spec(
            parts[3],
        ) is None || parse_u64_spec(parts[4]) is None {
            Err(WorkloadError::BadNumber)
        } else {
            Ok(
                CsvLoadView::BusyBox {
                    cpu_down: parse_u64_spec(parts[1])->0,
                    memory_down: parse_u64_spec(parts[2])->0,
                    cpu_up: parse_u64_spec(parts[3])->0,
                    memory_up: parse_u64_spec(parts[4])->0,
                    duration: parts[5],
                    shift_time: parts[6],
                },
            )
        }
    } else {
        Err(WorkloadError::UnknownLoad)
    }
}

/// A number, or `default` when the text is not one.
pub open spec fn u64_or(s: Seq<char>, default: u64) -> u64 {
    match parse_u64_spec(s) {
        Some(v) => v,
        None => default,
    }
}

/// The row a line holds once trimmed: fields `amount, arrival time,
/// request cpu, request memory, limit cpu, limit memory, priority, labels,
/// node selector, load`. Requests and the amount must be integers; a limit
/// that is not one means no limit, a priority that is not one means 0.
pub open spec fn row_of(t: Seq<char>) -> Result<CsvPodRowView, WorkloadError> {
    let data = split_spec(t, ',');
    if data.len() < 10 {
        Err(WorkloadError::MissingFields)
    } else if parse_u64_spec(data[2]) is None || parse_u64_spec(data[3]) is None {
        Err(WorkloadError::BadNumber)
    } else if pairs_of(split_spec(data[7], ';')) is None || pairs_of(split_spec(data[8], ';')) is None {
        Err(WorkloadError::BadPair)
    } else {
        match load_of(data[9]) {
            Err(e) => Err(e),
            Ok(load) => if parse_u64_spec(data[0]) is None {
                Err(WorkloadError::BadNumber)
            } else {
                Ok(
                    CsvPodRowView {
                        amount: parse_u64_spec(data[0])->0,
                        arrival_time: data[1],
                        request_cpu: parse_u64_spec(data[2])->0,
                        request_memory: parse_u64_spec(data[3])->0,
                        limit_cpu: u64_or(data[4], u64::MAX),
                        limit_memory: u64_or(data[5], u64::MAX),
                        priority: match parse_i64_spec(data[6]) {
                            Some(p) => p,
                            None => 0,
                        },
                        labels: pairs_of(split_spec(data[7], ';'))->0,
                        node_selector: pairs_of(split_spec(data[8], ';'))->0,
                        load: load,
                    },
                )
            },
        }
    }
}

/// `s` without its leading and trailing whitespace.
pub open spec fn trimmed(s: Seq<char>) -> Seq<char> {
    choose|t: Seq<char>| is_trimmed_of(s, t)
}

proof fn lemma_trimmed_unique(s: Seq<char>, t: Seq<char>)
    requires
        is_trimmed_of(s, t),
    ensures
        trimmed(s) == t,
{
    let u = trimmed(s);
    assert(is_trimmed_of(s, u));
    let (i, j) = choose|i: int, j: int|
        0 <= i <= j <= s.len() && t == s.subrange(i, j) && (forall|k: int|
            0 <= k < i ==> is_whitespace(#[trigger] s[k])) && (forall|k: int|
            j <= k < s.len() ==> is_whitespace(#[trigger] s[k])) && (t.len() > 0 ==> !is_whitespace(t[0])
            && !is_whitespace(t.last()));
    let (a, b) = choose|a: int, b: int|
        0 <= a <= b <= s.len() && u == s.subrange(a, b) && (forall|k: int|
            0 <= k < a ==> is_whitespace(#[trigger] s[k])) && (forall|k: int|
            b <= k < s.len() ==> is_whitespace(#[trigger] s[k])) && (u.len() > 0 ==> !is_whitespace(u[0])
            && !is_whitespace(u.last()));
    if t.len() > 0 && u.len() > 0 {
        assert(s[i] == t[0]);
        assert(s[a] == u[0]);
        if i < a {
            assert(is_whitespace(s[i]));
        }
        if a < i {
            assert(is_whitespace(s[a]));
        }
        assert(s[j - 1] == t.last());
        assert(s[b - 1] == u.last());
        if j < b {
            assert(is_whitespace(s[j]));
            assert(s[b - 1] == u.last());
            assert(is_whitespace(s[b - 1]));
        }
        if b < j {
            assert(is_whitespace(s[b]));
            assert(is_whitespace(s[j - 1]));
        }
        assert(u =~= t);
    } else if t.len() > 0 {
        assert(s[i] == t[0]);
        if i < a {
            assert(is_whitespace(s[i]));
        } else {
            assert(i >= b);
            assert(is_whitespace(s[i]));
        }
    } else if u.len() > 0 {
        assert(s[a] == u[0]);
        if a < i {
            assert(is_whitespace(s[a]));
        } else {
            assert(a >= j);
            assert(is_whitespace(s[a]));
        }
    } else {
        assert(u =~= t);
    }
}

/// The `key:value` entries of a field of `;`-separated pieces.
fn parse_pairs(field: &String) -> (r: Option<Vec<(String, String)>>)
    ensures
        r is None <==> pairs_of(split_spec(field@, ';')) is None,
        r is Some ==> pairs_of(split_spec(field@, ';')) == Some(pairs_view(r->0@)),
{
    let pieces = split(field.as_str(), ';');
    let ghost ps = split_spec(field@, ';');
    let mut out: Vec<(String, String)> = Vec::new();
    let mut k: usize = 0;
    assert(ps.skip(0) =~= ps);
    assert(pieces@.map_values(|x: String| x@) == ps);
    while k < pieces.len()
        invariant
            k <= pieces.len(),
            ps == split_spec(field@, ';'),
            pieces@.map_values(|x: String| x@) == ps,
            pairs_of(ps) == match pairs_of(ps.skip(k as int)) {
                Some(r) => Some(pairs_view(out@) + r),
                None => None,
            },
        decreases pieces.len() - k,
    {
        let ghost rest = ps.skip(k as int);
        assert(rest[0] == pieces@[k as int]@);
        assert(rest.drop_first() =~= ps.skip(k as int + 1));
        let piece = &pieces[k];
        if piece.unicode_len() == 0 {
            k = k + 1;
            continue;
        }
        let kv = split(piece.as_str(), ':');
        if kv.len() != 2 {
            assert(split_spec(rest[0], ':').len() != 2) by {
                assert(kv@.map_values(|x: String| x@).len() == kv@.len());
            }
            assert(pairs_of(rest) is None);
            assert(pairs_of(ps) is None);
            return None;
        }
        let key = kv[0].clone();
        let value = kv[1].clone();
        let ghost before = out@;
        out.push((key, value));
        proof {
            assert(pairs_view(out@) =~= pairs_view(before) + seq![(key@, value@)]);
            match pairs_of(ps.skip(k as int + 1)) {
                Some(r) => {
                    assert(pairs_view(before) + (seq![(key@, value@)] + r) =~= pairs_view(out@) + r);
                },
                None => {
                },
            }
        }
        k = k + 1;
    }
    assert(ps.skip(k as int) =~= Seq::<Seq<char>>::empty());
    assert(pairs_view(out@) + Seq::<(Seq<char>, Seq<char>)>::empty() =~= pairs_view(out@));
    Some(out)
}

/// The load a field describes.
fn parse_load(field: &String) -> (r: Result<CsvLoad, WorkloadError>)
    ensures
        match r {
            Ok(l) => load_of(field@) == Ok::<CsvLoadView, WorkloadError>(l@),
            Err(e) => load_of(field@) == Err::<CsvLoadView, WorkloadError>(e),
        },
{
    let parts = split(field.as_str(), ';');
    let ghost ps = split_spec(field@, ';');
    assert(parts@.map_values(|x: String| x@) == ps);
    assert(ps.len() > 0) by {
        crate::text::lemma_split_nonempty(field@, ';');
    }
    let constant = String::from_str("constant");
    let busybox = String::from_str("busybox");
    proof {
        reveal_strlit("constant");
        reveal_strlit("busybox");
        assert(constant@ =~= word_constant());
        assert(busybox@ =~= word_busybox());
        assert(parts@[0]@ == ps[0]);
    }
    if parts[0] == constant {
        if parts.len() != 4 {
            return Err(WorkloadError::BadLoadFields);
        }
        assert(parts@[1]@ == ps[1] && parts@[2]@ == ps[2] && parts@[3]@ == ps[3]);
        let cpu = parse_u64(&parts[1]);
        let memory = parse_u64(&parts[2]);
        match (cpu, memory) {
            (Some(cpu), Some(memory)) => Ok(CsvLoad::Constant { cpu, memory, duration: parts[3].clone() }),
            _ => Err(WorkloadError::BadNumber),
        }
    } else if parts[0] == busybox {
        if parts.len() != 7 {
            return Err(WorkloadError::BadLoadFields);
        }
        assert(parts@[1]@ == ps[1] && parts@[2]@ == ps[2] && parts@[3]@ == ps[3] && parts@[4]@ == ps[4]);
        assert(parts@[5]@ == ps[5] && parts@[6]@ == ps[6]);
        let cpu_down = parse_u64(&parts[1]);
        let memory_down = parse_u64(&parts[2]);
        let cpu_up = parse_u64(&parts[3]);
        let memory_up = parse_u64(&parts[4]);
        match (cpu_down, memory_down, cpu_up, memory_up) {
            (Some(cpu_down), Some(memory_down), Some(cpu_up), Some(memory_up)) => Ok(
                CsvLoad::BusyBox {
                    cpu_down,
                    memory_down,
                    cpu_up,
                    memory_up,
                    duration: parts[5].clone(),
                    shift_time: parts[6].clone(),
                },
            ),
            _ => Err(WorkloadError::BadNumber),
        }
    } else {
        Err(WorkloadError::UnknownLoad)
    }
}

/// Reads one row of a workload file.
pub fn parse_row(line: &str) -> (r: Result<CsvPodRow, WorkloadError>)
    ensures
        match r {
            Ok(row) => row_of(trimmed(line@)) == Ok::<CsvPodRowView, WorkloadError>(row@),
            Err(e) => row_of(trimmed(line@)) == Err::<CsvPodRowView, WorkloadError>(e),
        },
{
    let t = trim(line);
    proof {
        lemma_trimmed_unique(line@, t@);
    }
    let data = split(t.as_str(), ',');
    let ghost ds = split_spec(t@, ',');
    assert(data@.map_values(|x: String| x@) == ds);
    if data.len() < 10 {
        return Err(WorkloadError::MissingFields);
    }
    assert(forall|k: int| 0 <= k < 10 ==> data@[k]@ == #[trigger] ds[k]);
    assert(data@[0]@ == ds[0] && data@[1]@ == ds[1] && data@[2]@ == ds[2] && data@[3]@ == ds[3]);
    assert(data@[4]@ == ds[4] && data@[5]@ == ds[5] && data@[6]@ == ds[6] && data@[7]@ == ds[7]);
    assert(data@[8]@ == ds[8] && data@[9]@ == ds[9]);
    let request_cpu = parse_u64(&data[2]);
    let request_memory = parse_u64(&data[3]);
    if request_cpu.is_none() || request_memory.is_none() {
        return Err(WorkloadError::BadNumber);
    }
    let limit_cpu = match parse_u64(&data[4]) {
        Some(v) => v,
        None => u64::MAX,
    };
    let limit_memory = match parse_u64(&data[5]) {
        Some(v) => v,
        None => u64::MAX,
    };
    let priority = match parse_i64(&data[6]) {
        Some(v) => v,
        None => 0,
    };
    let labels = parse_pairs(&data[7]);
    let node_selector = parse_pairs(&data[8]);
    if labels.is_none() || node_selector.is_none() {
        return Err(WorkloadError::BadPair);
    }
    let load = match parse_load(&data[9]) {
        Ok(l) => l,
        Err(e) => {
            return Err(e);
        },
    };
    let amount = match parse_u64(&data[0]) {
        Some(v) => v,
        None => {
            return Err(WorkloadError::BadNumber);
        },
    };
    Ok(
        CsvPodRow {
            amount,
            arrival_time: data[1].clone(),
            request_cpu: request_cpu.unwrap(),
            request_memory: request_memory.unwrap(),
            limit_cpu,
            limit_memory,
            priority,
            labels: labels.unwrap(),
            node_selector: node_selector.unwrap(),
            load,
        },
    )
}

} // verus!
