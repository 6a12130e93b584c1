//! Which benchmarks to run, and with how many threads and files.
use vstd::prelude::*;
use crate::args::{next_x, parse_usize_range, find_x, spec_parse_usize, ArgsError};
use crate::bench::BenchmarkConfig;
use crate::params::str_eq;
use vstd::string::StrSliceExecFns;

verus! {

/// The benchmarks of the suite.
#[derive(PartialEq, Eq, Structural, Clone, Copy, Debug)]
pub enum BenchKind {
    /// Read a block in a private file.
    Drbl,
    /// Read a shared block in a shared file.
    Drbh,
    /// Overwrite a block in a private file.
    Dwol,
    /// Overwrite a private block in a shared file.
    Dwom,
    /// Append a block to a private file.
    Dwal,
    /// Rename a private file in a private directory.
    Mwrl,
    /// Move a private file to a shared directory.
    Mwrm,
    /// Read and write random pages, in a given ratio.
    Mix,
}

/// One benchmark to run and its parameters.
#[derive(PartialEq, Eq, Structural, Clone, Copy, Debug)]
pub struct BenchmarkPlan {
    pub kind: BenchKind,
    pub config: BenchmarkConfig,
}

pub open spec fn plan_of(kind: BenchKind, write_ratio: usize, open_files: usize, duration: u64) -> BenchmarkPlan {
    BenchmarkPlan { kind, config: BenchmarkConfig { open_files, write_ratio, duration } }
}

/// The open-file counts a mixed run tries with `n` cores on the first
/// socket: one, then every multiple of four up to `n`, then `n` itself if
/// the last one tried was not `n`.
pub open spec fn spec_open_files_default(n: usize) -> Seq<usize> {
    let k = n / 4;
    let steps = Seq::new((k + 1) as nat, |i: int| if i == 0 { 1usize } else { (4 * i) as usize });
    if steps.last() != n {
        steps.push(n)
    } else {
        steps
    }
}

pub fn open_files_default(n: usize) -> (r: Vec<usize>)
    ensures
        r@ == spec_open_files_default(n),
{
    let k = n / 4;
    let mut r: Vec<usize> = Vec::new();
    let mut i: usize = 0;
    while i <= k
        invariant
            k == n / 4,
            i <= k + 1,
            r@ == Seq::new(i as nat, |j: int| if j == 0 { 1usize } else { (4 * j) as usize }),
        decreases k + 1 - i,
    {
        r.push(if i == 0 { 1 } else { 4 * i });
        i = i + 1;
        assert(r@ =~= Seq::new(i as nat, |j: int| if j == 0 { 1usize } else { (4 * j) as usize }));
    }
    let last = if k == 0 { 1 } else { 4 * k };
    if last != n {
        r.push(n);
    }
    r
}

/// The step between thread counts tried on a machine with `max_cores`
/// usable cores.
pub open spec fn spec_thread_increment(max_cores: usize) -> usize {
    if max_cores > 90 {
        8
    } else if max_cores > 16 {
        4
    } else {
        2
    }
}

/// The thread counts tried with `max_cores` usable cores: one, then every
/// multiple of the step up to `max_cores`.
pub open spec fn spec_thread_counts(max_cores: usize) -> Seq<usize> {
    let step = spec_thread_increment(max_cores);
    Seq::new((max_cores / step + 1) as nat, |i: int| if i == 0 { 1usize } else { (i * step) as usize })
}

pub fn thread_counts(max_cores: usize) -> (r: Vec<usize>)
    ensures
        r@ == spec_thread_counts(max_cores),
{
    let step: usize = if max_cores > 90 {
        8
    } else if max_cores > 16 {
        4
    } else {
        2
    };
    let k = max_cores / step;
    let mut r: Vec<usize> = Vec::new();
    let mut i: usize = 0;
    while i <= k
        invariant
            step == spec_thread_increment(max_cores),
            k == max_cores / step,
            i <= k + 1,
            r@ == Seq::new(i as nat, |j: int| if j == 0 { 1usize } else { (j * step) as usize }),
        decreases k + 1 - i,
    {
        proof {
            assert(i * step <= max_cores) by (nonlinear_arith)
                requires
                    i <= max_cores / step,
                    step > 0,
            ;
        }
        r.push(if i == 0 { 1 } else { i * step });
        i = i + 1;
        assert(r@ =~= Seq::new(i as nat, |j: int| if j == 0 { 1usize } else { (j * step) as usize }));
    }
    r
}

/// The names that ask for a mixed run, each with its write ratio.
pub open spec fn is_mix_name(v: Seq<char>) -> bool {
    ||| v == "mixX0"@
    ||| v == "mixX1"@
    ||| v == "mixX5"@
    ||| v == "mixX10"@
    ||| v == "mixX20"@
    ||| v == "mixX40"@
    ||| v == "mixX60"@
    ||| v == "mixX80"@
    ||| v == "mixX100"@
}

/// The write ratio written after the first 'X' of `v`.
pub open spec fn spec_ratio_of(v: Seq<char>) -> Result<usize, ArgsError> {
    let a = next_x(v, 0);
    if a < v.len() {
        spec_parse_usize(v.subrange(a + 1, next_x(v, a + 1)))
    } else {
        Err(ArgsError::MissingField)
    }
}

pub open spec fn single(vs: Seq<Seq<char>>, name: Seq<char>, kind: BenchKind, duration: u64) -> Seq<BenchmarkPlan> {
    if vs.contains(name) {
        seq![plan_of(kind, 0, 0, duration)]
    } else {
        Seq::empty()
    }
}

/// The runs that benchmark names `vs` ask for, in the suite's order: each
/// named single benchmark once, then, if a mixed run is named, one mixed
/// run per default open-file count with the ratio that the first name
/// gives; an error if that name gives none.
pub open spec fn spec_run_benchmarks(duration: u64, vs: Seq<Seq<char>>, socket0_cores: usize) -> Result<Seq<BenchmarkPlan>, ArgsError> {
    let singles = single(vs, "drbl"@, BenchKind::Drbl, duration) + single(vs, "drbh"@, BenchKind::Drbh, duration)
        + single(vs, "dwol"@, BenchKind::Dwol, duration) + single(vs, "dwom"@, BenchKind::Dwom, duration)
        + single(vs, "dwal"@, BenchKind::Dwal, duration) + single(vs, "mwrl"@, BenchKind::Mwrl, duration)
        + single(vs, "mwrm"@, BenchKind::Mwrm, duration);
    if exists|i: int| 0 <= i < vs.len() && is_mix_name(#[trigger] vs[i]) {
        match spec_ratio_of(vs[0]) {
            Ok(w) => Ok(singles + spec_open_files_default(socket0_cores).map_values(
                |of: usize| plan_of(BenchKind::Mix, w, of, duration),
            )),
            Err(e) => Err(e),
        }
    } else {
        Ok(singles)
    }
}

/// Whether `name` is among `vs`.
fn named(vs: &Vec<&str>, name: &str) -> (r: bool)
    ensures
        r == vs.deep_view().contains(name@),
{
    let mut i: usize = 0;
    while i < vs.len()
        invariant
            i <= vs@.len(),
            forall|j: int| 0 <= j < i ==> vs.deep_view()[j] != name@,
        decreases vs@.len() - i,
    {
        if str_eq(vs[i], name) {
            assert(vs.deep_view()[i as int] == name@);
            return true;
        }
        i = i + 1;
    }
    false
}

fn push_single(out: &mut Vec<BenchmarkPlan>, vs: &Vec<&str>, name: &str, kind: BenchKind, duration: u64)
    ensures
        final(out)@ == old(out)@ + single(vs.deep_view(), name@, kind, duration),
{
    if named(vs, name) {
        out.push(BenchmarkPlan { kind, config: BenchmarkConfig { open_files: 0, write_ratio: 0, duration } });
        assert(out@ =~= old(out)@ + single(vs.deep_view(), name@, kind, duration));
    } else {
        assert(out@ =~= old(out)@ + single(vs.deep_view(), name@, kind, duration));
    }
}

/// The write ratio written after the first 'X' of `v`.
pub fn ratio_of(v: &str) -> (r: Result<usize, ArgsError>)
    ensures
        r == spec_ratio_of(v@),
{
    let len = v.unicode_len();
    let a = find_x(v, 0, len);
    if a >= len {
        return Err(ArgsError::MissingField);
    }
    let b = find_x(v, a + 1, len);
    parse_usize_range(v, a + 1, b)
}

/// The runs that the benchmark names `versions` ask for (see
/// `spec_run_benchmarks`), each lasting `duration` seconds, on a machine
/// with `socket0_cores` cores on its first socket.
pub fn run_benchmarks(duration: u64, versions: &Vec<&str>, socket0_cores: usize) -> (r: Result<Vec<BenchmarkPlan>, ArgsError>)
    ensures
        match spec_run_benchmarks(duration, versions.deep_view(), socket0_cores) {
            Ok(p) => r is Ok && r->Ok_0@ == p,
            Err(e) => r == Err::<Vec<BenchmarkPlan>, ArgsError>(e),
        },
{
    let ghost vs = versions.deep_view();
    let mut out: Vec<BenchmarkPlan> = Vec::new();
    push_single(&mut out, versions, "drbl", BenchKind::Drbl, duration);
    push_single(&mut out, versions, "drbh", BenchKind::Drbh, duration);
    push_single(&mut out, versions, "dwol", BenchKind::Dwol, duration);
    push_single(&mut out, versions, "dwom", BenchKind::Dwom, duration);
    push_single(&mut out, versions, "dwal", BenchKind::Dwal, duration);
    push_single(&mut out, versions, "mwrl", BenchKind::Mwrl, duration);
    push_single(&mut out, versions, "mwrm", BenchKind::Mwrm, duration);
    let ghost singles = out@;
    assert(singles =~= single(vs, "drbl"@, BenchKind::Drbl, duration) + single(vs, "drbh"@, BenchKind::Drbh, duration)
        + single(vs, "dwol"@, BenchKind::Dwol, duration) + single(vs, "dwom"@, BenchKind::Dwom, duration)
        + single(vs, "dwal"@, BenchKind::Dwal, duration) + single(vs, "mwrl"@, BenchKind::Mwrl, duration)
        + single(vs, "mwrm"@, BenchKind::Mwrm, duration));
    let mut mix = false;
    let mut i: usize = 0;
    while i < versions.len()
        invariant
            i <= versions@.len(),
            vs == versions.deep_view(),
            mix == exists|j: int| 0 <= j < i && is_mix_name(#[trigger] vs[j]),
        decreases versions@.len() - i,
    {
        let v = versions[i];
        let m = str_eq(v, "mixX0") || str_eq(v, "mixX1") || str_eq(v, "mixX5") || str_eq(v, "mixX10")
            || str_eq(v, "mixX20") || str_eq(v, "mixX40") || str_eq(v, "mixX60") || str_eq(v, "mixX80")
            || str_eq(v, "mixX100");
        assert(vs[i as int] == v@);
        assert(m == is_mix_name(vs[i as int]));
        mix = mix || m;
        i = i + 1;
    }
    if !mix {
        return Ok(out);
    }
    let w = match ratio_of(versions[0]) {
        Ok(w) => w,
        Err(e) => return Err(e),
    };
    let counts = open_files_default(socket0_cores);
    let mut k: usize = 0;
    while k < counts.len()
        invariant
            k <= counts@.len(),
            out@ == singles + counts@.take(k as int).map_values(|of: usize| plan_of(BenchKind::Mix, w, of, duration)),
        decreases counts@.len() - k,
    {
        out.push(BenchmarkPlan {
            kind: BenchKind::Mix,
            config: BenchmarkConfig { open_files: counts[k], write_ratio: w, duration },
        });
        k = k + 1;
        assert(out@ =~= singles + counts@.take(k as int).map_values(|of: usize| plan_of(BenchKind::Mix, w, of, duration)));
    }
    assert(counts@.take(counts@.len() as int) =~= counts@);
    Ok(out)
}

} // verus!
