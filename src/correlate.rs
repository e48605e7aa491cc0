//! Which processes use which GPU: the descriptor targets of every process,
//! matched against the device nodes of every GPU.

use vstd::prelude::*;
use crate::gpu::{Device, DeviceView, GpuRegistry};
use crate::process::{Process, ProcessView};

verus! {

/// The GPU at `j` is the first of `devs` with the device node `fd`.
pub open spec fn owns(devs: Seq<(Seq<char>, DeviceView)>, j: int, fd: Seq<char>) -> bool {
    &&& 0 <= j < devs.len()
    &&& devs[j].1.drm_paths.contains(fd)
    &&& forall|k: int| 0 <= k < j ==> !(#[trigger] devs[k].1.drm_paths.contains(fd))
}

/// The process `p` has a descriptor on a device node that belongs to the GPU
/// at `j`.
pub open spec fn uses(p: ProcessView, devs: Seq<(Seq<char>, DeviceView)>, j: int) -> bool {
    exists|k: int| 0 <= k < p.fds.len() && owns(devs, j, #[trigger] p.fds[k])
}

/// `s` is strictly increasing.
pub open spec fn increasing(s: Seq<usize>) -> bool {
    forall|a: int, b: int| 0 <= a < b < s.len() ==> s[a] < s[b]
}

/// The processes that use one GPU: `device` is the GPU's place in the
/// registry, `processes` the places of the processes in the process list.
#[derive(Debug)]
pub struct GpuProcessInfo {
    pub device: usize,
    pub processes: Vec<usize>,
}

/// `out` holds, for each GPU of `devs` in turn, the processes of `procs`
/// that use it, each once and in the order of `procs`.
pub open spec fn is_correlation(
    procs: Seq<ProcessView>,
    devs: Seq<(Seq<char>, DeviceView)>,
    out: Seq<GpuProcessInfo>,
) -> bool {
    &&& out.len() == devs.len()
    &&& forall|j: int| 0 <= j < out.len() ==> (#[trigger] out[j]).device == j
    &&& forall|j: int| 0 <= j < out.len() ==> increasing((#[trigger] out[j]).processes@)
    &&& forall|j: int, q: int|
        0 <= j < out.len() && 0 <= q < out[j].processes@.len() ==> (#[trigger] out[j].processes@[q])
            < procs.len()
    &&& forall|j: int, i: int|
        0 <= j < out.len() && 0 <= i < procs.len() ==> (out[j].processes@.contains(i as usize)
            <==> #[trigger] uses(procs[i], devs, j))
}

pub open spec fn process_views(procs: Seq<Process>) -> Seq<ProcessView> {
    procs.map_values(|p: Process| p@)
}

impl GpuProcessInfo {
    /// Records the process at `i`, unless it is already the last recorded.
    fn add_process(&mut self, i: usize)
        requires
            increasing(old(self).processes@),
            forall|q: int| 0 <= q < old(self).processes@.len() ==> old(self).processes@[q] <= i,
        ensures
            final(self).device == old(self).device,
            increasing(final(self).processes@),
            forall|q: int| 0 <= q < final(self).processes@.len() ==> final(self).processes@[q] <= i,
            final(self).processes@.len() > 0,
            final(self).processes@.last() == i,
            forall|x: usize| #[trigger]
                final(self).processes@.contains(x) <==> (old(self).processes@.contains(x) || x == i),
    {
        let n = self.processes.len();
        if n > 0 && self.processes[n - 1] == i {
            return;
        }
        self.processes.push(i);
        proof {
            assert forall|x: usize| #[trigger]
                self.processes@.contains(x) <==> (old(self).processes@.contains(x) || x == i) by {
                if self.processes@.contains(x) {
                    let q = choose|q: int| 0 <= q < self.processes@.len() && self.processes@[q] == x;
                    if q < n {
                        assert(old(self).processes@[q] == x);
                    }
                }
                if old(self).processes@.contains(x) {
                    let q = choose|q: int|
                        0 <= q < old(self).processes@.len() && old(self).processes@[q] == x;
                    assert(self.processes@[q] == x);
                }
                if x == i {
                    assert(self.processes@[n as int] == x);
                }
            }
        }
    }
}

/// The place of the first GPU of `gpus` with the device node `fd`.
fn owner_of(gpus: &GpuRegistry, fd: &String) -> (r: Option<usize>)
    requires
        gpus.wf(),
    ensures
        r matches Some(j) ==> owns(gpus@, j as int, fd@),
        r is None ==> forall|j: int| 0 <= j < gpus@.len() ==> !(#[trigger] gpus@[j].1.drm_paths.contains(fd@)),
{
    let n = gpus.len();
    let mut j: usize = 0;
    while j < n
        invariant
            gpus.wf(),
            n == gpus@.len(),
            0 <= j <= n,
            forall|k: int| 0 <= k < j ==> !(#[trigger] gpus@[k].1.drm_paths.contains(fd@)),
        decreases n - j,
    {
        let dev: &Device = gpus.device(j);
        if dev.contains_path(fd) {
            return Some(j);
        }
        j = j + 1;
    }
    None
}

/// For each GPU of `gpus`, the processes of `procs` that hold a descriptor
/// on one of its device nodes. A descriptor counts for the first GPU that
/// has its target; a process is listed at most once per GPU.
pub fn link_processes_to_gpu(procs: &[Process], gpus: &GpuRegistry) -> (r: Vec<GpuProcessInfo>)
    requires
        gpus.wf(),
    ensures
        is_correlation(process_views(procs@), gpus@, r@),
{
    let ghost pv = process_views(procs@);
    let ghost devs = gpus@;
    let n = gpus.len();
    let mut out: Vec<GpuProcessInfo> = Vec::new();
    let mut j: usize = 0;
    while j < n
        invariant
            n == devs.len(),
            0 <= j <= n,
            out@.len() == j,
            forall|q: int| 0 <= q < j ==> (#[trigger] out@[q]).device == q && out@[q].processes@.len()
                == 0,
        decreases n - j,
    {
        out.push(GpuProcessInfo { device: j, processes: Vec::new() });
        j = j + 1;
    }
    let mut i: usize = 0;
    while i < procs.len()
        invariant
            gpus.wf(),
            devs == gpus@,
            pv == process_views(procs@),
            out@.len() == devs.len(),
            0 <= i <= procs@.len(),
            forall|q: int| 0 <= q < out@.len() ==> (#[trigger] out@[q]).device == q,
            forall|q: int| 0 <= q < out@.len() ==> increasing((#[trigger] out@[q]).processes@),
            forall|q: int, t: int|
                0 <= q < out@.len() && 0 <= t < out@[q].processes@.len() ==> (
                #[trigger] out@[q].processes@[t]) < i,
            forall|q: int, x: int|
                0 <= q < out@.len() && 0 <= x < i ==> (out@[q].processes@.contains(x as usize)
                    <==> #[trigger] uses(pv[x], devs, q)),
        decreases procs@.len() - i,
    {
        let fds = procs[i].get_fds();
        let ghost p = pv[i as int];
        assert(p == procs@[i as int]@);
        let mut k: usize = 0;
        while k < fds.len()
            invariant
                gpus.wf(),
                devs == gpus@,
                pv == process_views(procs@),
                p == pv[i as int],
                0 <= i < procs@.len(),
                fds@.map_values(|f: String| f@) == p.fds,
                out@.len() == devs.len(),
                0 <= k <= fds@.len(),
                forall|q: int| 0 <= q < out@.len() ==> (#[trigger] out@[q]).device == q,
                forall|q: int| 0 <= q < out@.len() ==> increasing((#[trigger] out@[q]).processes@),
                forall|q: int, t: int|
                    0 <= q < out@.len() && 0 <= t < out@[q].processes@.len() ==> (
                    #[trigger] out@[q].processes@[t]) <= i,
                forall|q: int, x: int|
                    0 <= q < out@.len() && 0 <= x < i ==> (out@[q].processes@.contains(x as usize)
                        <==> #[trigger] uses(pv[x], devs, q)),
                forall|q: int|
                    0 <= q < out@.len() ==> ((#[trigger] out@[q].processes@).contains(i) <==> exists|
                        t: int,
                    | 0 <= t < k && owns(devs, q, #[trigger] p.fds[t])),
            decreases fds@.len() - k,
        {
            let fd: &String = &fds[k];
            assert(fd@ == p.fds[k as int]);
            match owner_of(gpus, fd) {
                Some(jj) => {
                    let ghost before = out@;
                    out[jj].add_process(i);
                    proof {
                        assert forall|q: int| 0 <= q < out@.len() implies ((#[trigger] out@[q].processes@).contains(i) <==> exists|t: int| 0 <= t < k + 1 && owns(devs, q, #[trigger] p.fds[t])) by {
                            if q == jj {
                                assert(owns(devs, q, p.fds[k as int]));
                            } else {
                                assert(out@[q] == before[q]);
                                if owns(devs, q, p.fds[k as int]) {
                                    assert(owns(devs, jj as int, p.fds[k as int]));
                                    if q < jj {
                                        assert(!devs[q].1.drm_paths.contains(p.fds[k as int]));
                                    } else {
                                        assert(!devs[jj as int].1.drm_paths.contains(p.fds[k as int]));
                                    }
                                }
                            }
                        }
                        assert forall|q: int, x: int|
                            0 <= q < out@.len() && 0 <= x < i implies (out@[q].processes@.contains(x as usize)
                                <==> #[trigger] uses(pv[x], devs, q)) by {
                            if q != jj {
                                assert(out@[q] == before[q]);
                            } else {
                                assert(before[q].processes@.contains(x as usize) <==> uses(pv[x], devs, q));
                            }
                        }
                        assert forall|q: int, t: int|
                            0 <= q < out@.len() && 0 <= t < out@[q].processes@.len() implies (
                            #[trigger] out@[q].processes@[t]) <= i by {
                            if q != jj {
                                assert(out@[q] == before[q]);
                            }
                        }
                        assert forall|q: int| 0 <= q < out@.len() implies increasing((#[trigger] out@[q]).processes@) by {
                            if q != jj {
                                assert(out@[q] == before[q]);
                            }
                        }
                        assert forall|q: int| 0 <= q < out@.len() implies (#[trigger] out@[q]).device == q by {
                            if q != jj {
                                assert(out@[q] == before[q]);
                            }
                        }
                    }
                },
                None => {
                    proof {
                        assert forall|q: int| 0 <= q < out@.len() implies ((#[trigger] out@[q].processes@).contains(i) <==> exists|t: int| 0 <= t < k + 1 && owns(devs, q, #[trigger] p.fds[t])) by {
                            if owns(devs, q, p.fds[k as int]) {
                                assert(devs[q].1.drm_paths.contains(fd@));
                            }
                        }
                    }
                },
            }
            k = k + 1;
        }
        proof {
            assert forall|q: int, x: int|
                0 <= q < out@.len() && 0 <= x < i + 1 implies (out@[q].processes@.contains(x as usize)
                    <==> #[trigger] uses(pv[x], devs, q)) by {
                if x == i {
                    if out@[q].processes@.contains(i) {
                        let t = choose|t: int| 0 <= t < k && owns(devs, q, #[trigger] p.fds[t]);
                        assert(uses(p, devs, q));
                    }
                    if uses(p, devs, q) {
                        let t = choose|t: int| 0 <= t < p.fds.len() && owns(devs, q, #[trigger] p.fds[t]);
                        assert(0 <= t < k);
                    }
                }
            }
            assert forall|q: int, t: int|
                0 <= q < out@.len() && 0 <= t < out@[q].processes@.len() implies (
                #[trigger] out@[q].processes@[t]) < i + 1 by {
            }
        }
        i = i + 1;
    }
    out
}

/// No device node belongs to two GPUs of `devs`.
pub open spec fn nodes_disjoint(devs: Seq<(Seq<char>, DeviceView)>) -> bool {
    forall|a: int, b: int, path: Seq<char>|
        0 <= a < devs.len() && 0 <= b < devs.len() && a != b && #[trigger] devs[a].1.drm_paths.contains(path)
            ==> !#[trigger] devs[b].1.drm_paths.contains(path)
}

/// A process none of whose descriptors targets a device node of any GPU is
/// listed under no GPU.
pub proof fn lemma_unrelated_process_unlisted(
    procs: Seq<ProcessView>,
    devs: Seq<(Seq<char>, DeviceView)>,
    out: Seq<GpuProcessInfo>,
    i: int,
)
    requires
        is_correlation(procs, devs, out),
        0 <= i < procs.len(),
        forall|k: int, j: int|
            0 <= k < procs[i].fds.len() && 0 <= j < devs.len() ==> !(#[trigger] devs[j].1.drm_paths.contains(
                #[trigger] procs[i].fds[k],
            )),
    ensures
        forall|j: int| 0 <= j < out.len() ==> !(#[trigger] out[j].processes@).contains(i as usize),
{
    assert forall|j: int| 0 <= j < out.len() implies !(#[trigger] out[j].processes@).contains(i as usize) by {
        assert(!uses(procs[i], devs, j));
    }
}

/// A process with descriptors on device nodes of two different GPUs is
/// listed under both.
pub proof fn lemma_process_on_two_gpus(
    procs: Seq<ProcessView>,
    devs: Seq<(Seq<char>, DeviceView)>,
    out: Seq<GpuProcessInfo>,
    i: int,
    k1: int,
    j1: int,
    k2: int,
    j2: int,
)
    requires
        is_correlation(procs, devs, out),
        nodes_disjoint(devs),
        0 <= i < procs.len(),
        0 <= k1 < procs[i].fds.len(),
        0 <= k2 < procs[i].fds.len(),
        0 <= j1 < devs.len(),
        0 <= j2 < devs.len(),
        j1 != j2,
        devs[j1].1.drm_paths.contains(procs[i].fds[k1]),
        devs[j2].1.drm_paths.contains(procs[i].fds[k2]),
    ensures
        out[j1].processes@.contains(i as usize),
        out[j2].processes@.contains(i as usize),
{
    assert(owns(devs, j1, procs[i].fds[k1]));
    assert(owns(devs, j2, procs[i].fds[k2]));
    assert(uses(procs[i], devs, j1));
    assert(uses(procs[i], devs, j2));
}

/// Without GPUs there are no lists, whatever the processes.
pub proof fn lemma_no_gpus_no_lists(
    procs: Seq<ProcessView>,
    devs: Seq<(Seq<char>, DeviceView)>,
    out: Seq<GpuProcessInfo>,
)
    requires
        is_correlation(procs, devs, out),
        devs.len() == 0,
    ensures
        out.len() == 0,
{
}

} // verus!
