//! Identifying the agent's own container and the dependent containers
//! that must be stopped around an archive run.
//!
//! The application queries the container runtime and hands the
//! snapshots in as plain records; everything decided from them — which
//! listed container is the canonical agent, which stale ones to remove,
//! which volume sources overlap the data directory, and which other
//! containers depend on those sources — is computed and verified here.

use vstd::prelude::*;

use crate::error::Error;
use crate::text::{str_eq, str_starts_with};

verus! {

/// One mount of a running container, as the runtime reports it.
pub struct ContainerMount {
    pub source: Option<String>,
    pub destination: Option<String>,
}

/// The runtime's snapshot of one running container.
pub struct ContainerRecord {
    pub id: Option<String>,
    pub created: Option<i64>,
    pub mounts: Vec<ContainerMount>,
}

/// The creation timestamp, zero where the runtime reported none.
pub open spec fn created_or_zero(c: ContainerRecord) -> int {
    match c.created {
        Some(v) => v as int,
        None => 0,
    }
}

/// Whether the path `p` covers the path `q`: it is `q` itself, the
/// root, or an ancestor directory of `q`.
pub open spec fn path_covers(p: Seq<char>, q: Seq<char>) -> bool {
    ||| p == q
    ||| p == "/"@
    ||| (p + "/"@).is_prefix_of(q)
}

/// Whether `p` covers `q`, per `path_covers`.
pub fn path_covers_exec(p: &str, q: &str) -> (r: bool)
    ensures
        r == path_covers(p@, q@),
{
    if str_eq(p, q) || str_eq(p, "/") {
        return true;
    }
    let mut pp = String::from_str(p);
    pp.append("/");
    str_starts_with(q, pp.as_str())
}

/// Whether this mount protects the data directory: it has a
/// destination and that destination covers the directory.
pub open spec fn mount_covers(m: ContainerMount, data_dir: Seq<char>) -> bool {
    &&& m.destination is Some
    &&& path_covers(m.destination->0@, data_dir)
}

/// The sources of the mounts that cover the data directory, in mount
/// order, skipping mounts without a source.
pub open spec fn sources_of_mounts(ms: Seq<ContainerMount>, data_dir: Seq<char>) -> Seq<Seq<char>>
    decreases ms.len(),
{
    if ms.len() == 0 {
        Seq::empty()
    } else {
        let rest = sources_of_mounts(ms.drop_first(), data_dir);
        if mount_covers(ms[0], data_dir) && ms[0].source is Some {
            seq![ms[0].source->0@] + rest
        } else {
            rest
        }
    }
}

/// The volume sources of `container` that overlap `data_dir`.
pub open spec fn archive_sources_of(container: ContainerRecord, data_dir: Seq<char>) -> Seq<
    Seq<char>,
> {
    sources_of_mounts(container.mounts@, data_dir)
}

proof fn lemma_sources_of_mounts_snoc(ms: Seq<ContainerMount>, data_dir: Seq<char>, k: int)
    requires
        0 <= k < ms.len(),
    ensures
        sources_of_mounts(ms.take(k + 1), data_dir) == sources_of_mounts(ms.take(k), data_dir) + (
        if mount_covers(ms[k], data_dir) && ms[k].source is Some {
            seq![ms[k].source->0@]
        } else {
            Seq::empty()
        }),
    decreases ms.len(),
{
    if k == 0 {
        assert(ms.take(1).drop_first() =~= ms.take(0));
        assert(ms.take(1)[0] == ms[0]);
        if mount_covers(ms[0], data_dir) && ms[0].source is Some {
            assert(seq![ms[0].source->0@] + Seq::<Seq<char>>::empty() =~= Seq::<
                Seq<char>,
            >::empty() + seq![ms[0].source->0@]);
        } else {
            assert(Seq::<Seq<char>>::empty() + Seq::<Seq<char>>::empty() =~= Seq::<
                Seq<char>,
            >::empty());
        }
    } else {
        let d = ms.drop_first();
        assert(ms.take(k + 1).drop_first() =~= d.take(k));
        assert(ms.take(k).drop_first() =~= d.take(k - 1));
        assert(ms.take(k + 1)[0] == ms[0]);
        assert(ms.take(k)[0] == ms[0]);
        lemma_sources_of_mounts_snoc(d, data_dir, k - 1);
        assert(d[k - 1] == ms[k]);
        if mount_covers(ms[0], data_dir) && ms[0].source is Some {
            assert(seq![ms[0].source->0@] + (sources_of_mounts(d.take(k - 1), data_dir) + (
            if mount_covers(ms[k], data_dir) && ms[k].source is Some {
                seq![ms[k].source->0@]
            } else {
                Seq::empty()
            })) =~= (seq![ms[0].source->0@] + sources_of_mounts(d.take(k - 1), data_dir)) + (
            if mount_covers(ms[k], data_dir) && ms[k].source is Some {
                seq![ms[k].source->0@]
            } else {
                Seq::empty()
            }));
        }
    }
}

/// The volume sources of `container` whose mount destinations cover
/// the data directory, per `archive_sources_of`.
#[verifier::loop_isolation(false)]
pub fn get_archive_volumes(container: &ContainerRecord, data_dir: &str) -> (r: Vec<String>)
    ensures
        r@.map_values(|s: String| s@) == archive_sources_of(*container, data_dir@),
{
    let ghost ms = container.mounts@;
    let mut out: Vec<String> = Vec::new();
    let mut i: usize = 0;
    while i < container.mounts.len()
        invariant
            i <= ms.len(),
            out@.map_values(|s: String| s@) == sources_of_mounts(ms.take(i as int), data_dir@),
        decreases ms.len() - i,
    {
        let m = &container.mounts[i];
        let covers = match &m.destination {
            Some(d) => path_covers_exec(d.as_str(), data_dir),
            None => false,
        };
        if covers {
            match &m.source {
                Some(src) => {
                    let ghost prev = out@;
                    out.push(src.clone());
                    proof {
                        assert(out@.map_values(|s: String| s@) =~= prev.map_values(|s: String| s@)
                            + seq![ms[i as int].source->0@]);
                    }
                },
                None => {},
            }
        }
        proof {
            lemma_sources_of_mounts_snoc(ms, data_dir@, i as int);
            if !(mount_covers(ms[i as int], data_dir@) && ms[i as int].source is Some) {
                assert(sources_of_mounts(ms.take(i as int), data_dir@) + Seq::<Seq<char>>::empty()
                    =~= sources_of_mounts(ms.take(i as int), data_dir@));
            }
        }
        i = i + 1;
    }
    proof {
        assert(ms.take(ms.len() as int) =~= ms);
    }
    out
}

/// The ids of every listed container except the one at `keep`, in
/// listing order, skipping records without an id.
pub open spec fn removal_ids_of(cs: Seq<ContainerRecord>, keep: int) -> Seq<Seq<char>>
    decreases cs.len(),
{
    if cs.len() == 0 {
        Seq::empty()
    } else {
        let rest = removal_ids_of(cs.drop_first(), keep - 1);
        if keep == 0 {
            rest
        } else {
            match cs[0].id {
                Some(id) => seq![id@] + rest,
                None => rest,
            }
        }
    }
}

proof fn lemma_removal_ids_snoc(cs: Seq<ContainerRecord>, keep: int, k: int)
    requires
        0 <= k < cs.len(),
    ensures
        removal_ids_of(cs.take(k + 1), keep) == removal_ids_of(cs.take(k), keep) + (
        if k != keep && cs[k].id is Some {
            seq![cs[k].id->0@]
        } else {
            Seq::empty()
        }),
    decreases cs.len(),
{
    let tail = if k != keep && cs[k].id is Some {
        seq![cs[k].id->0@]
    } else {
        Seq::<Seq<char>>::empty()
    };
    if k == 0 {
        assert(cs.take(1).drop_first() =~= cs.take(0));
        assert(cs.take(1)[0] == cs[0]);
        assert(removal_ids_of(cs.take(0), keep) + tail =~= tail);
        assert(removal_ids_of(cs.take(0), keep - 1) == Seq::<Seq<char>>::empty());
        if keep == 0 {
            assert(removal_ids_of(cs.take(1), keep) =~= Seq::<Seq<char>>::empty());
        } else {
            match cs[0].id {
                Some(id) => {
                    assert(seq![id@] + Seq::<Seq<char>>::empty() =~= seq![id@]);
                },
                None => {
                    assert(removal_ids_of(cs.take(1), keep) =~= Seq::<Seq<char>>::empty());
                },
            }
        }
    } else {
        let d = cs.drop_first();
        assert(cs.take(k + 1).drop_first() =~= d.take(k));
        assert(cs.take(k).drop_first() =~= d.take(k - 1));
        assert(cs.take(k + 1)[0] == cs[0]);
        assert(cs.take(k)[0] == cs[0]);
        lemma_removal_ids_snoc(d, keep - 1, k - 1);
        assert(d[k - 1] == cs[k]);
        if keep != 0 && cs[0].id is Some {
            let h = seq![cs[0].id->0@];
            assert(h + (removal_ids_of(d.take(k - 1), keep - 1) + tail) =~= (h + removal_ids_of(
                d.take(k - 1),
                keep - 1,
            )) + tail);
        }
    }
}

/// Identifies the agent's own container among those the runtime lists
/// under the agent's label. With none listed this fails; otherwise the
/// canonical one is the most recently created (the last such in
/// listing order on ties), and every other listed container's id is
/// returned for best-effort removal as a stale instance.
#[verifier::loop_isolation(false)]
pub fn select_salvage_container(containers: &Vec<ContainerRecord>) -> (r: Result<
    (usize, Vec<String>),
    Error,
>)
    ensures
        containers@.len() == 0 <==> r == Err::<(usize, Vec<String>), Error>(
            Error::NoSalvageContainer,
        ),
        containers@.len() > 0 ==> r is Ok,
        r is Ok ==> ({
            let idx = r->Ok_0.0;
            &&& idx < containers@.len()
            &&& forall|j: int|
                0 <= j < containers@.len() ==> created_or_zero(#[trigger] containers@[j])
                    <= created_or_zero(containers@[idx as int])
            &&& forall|j: int|
                idx < j < containers@.len() ==> created_or_zero(#[trigger] containers@[j])
                    < created_or_zero(containers@[idx as int])
            &&& r->Ok_0.1@.map_values(|s: String| s@) == removal_ids_of(containers@, idx as int)
        }),
{
    let ghost cs = containers@;
    if containers.len() == 0 {
        return Err(Error::NoSalvageContainer);
    }
    // the canonical container: the latest created, last on ties
    let mut idx: usize = 0;
    let mut best: i64 = match &containers[0].created {
        Some(v) => *v,
        None => 0,
    };
    let mut j: usize = 1;
    while j < containers.len()
        invariant
            1 <= j <= cs.len(),
            idx < j,
            best == created_or_zero(cs[idx as int]),
            forall|i: int| 0 <= i < j ==> created_or_zero(#[trigger] cs[i]) <= best,
            forall|i: int| idx < i < j ==> created_or_zero(#[trigger] cs[i]) < best,
        decreases cs.len() - j,
    {
        let c = match &containers[j].created {
            Some(v) => *v,
            None => 0,
        };
        if c >= best {
            idx = j;
            best = c;
        }
        j = j + 1;
    }
    // every other listed container is stale and will be removed
    let mut removals: Vec<String> = Vec::new();
    let mut k: usize = 0;
    while k < containers.len()
        invariant
            k <= cs.len(),
            idx < cs.len(),
            removals@.map_values(|s: String| s@) == removal_ids_of(cs.take(k as int), idx as int),
        decreases cs.len() - k,
    {
        if k != idx {
            match &containers[k].id {
                Some(id) => {
                    let ghost prev = removals@;
                    removals.push(id.clone());
                    proof {
                        assert(removals@.map_values(|s: String| s@) =~= prev.map_values(
                            |s: String| s@,
                        ) + seq![cs[k as int].id->0@]);
                    }
                },
                None => {},
            }
        }
        proof {
            lemma_removal_ids_snoc(cs, idx as int, k as int);
            if !(k != idx && cs[k as int].id is Some) {
                assert(removal_ids_of(cs.take(k as int), idx as int) + Seq::<Seq<char>>::empty()
                    =~= removal_ids_of(cs.take(k as int), idx as int));
            }
        }
        k = k + 1;
    }
    proof {
        assert(cs.take(cs.len() as int) =~= cs);
    }
    Ok((idx, removals))
}

/// Whether this mount's source is one of the protected sources.
pub open spec fn mount_source_in(m: ContainerMount, sources: Seq<Seq<char>>) -> bool {
    &&& m.source is Some
    &&& sources.contains(m.source->0@)
}

/// Whether this container must be stopped before archiving: it is not
/// the agent's own, has an id, and mounts one of the protected sources.
pub open spec fn is_dependent(c: ContainerRecord, sources: Seq<Seq<char>>, self_id: Seq<char>)
    -> bool {
    &&& c.id is Some
    &&& c.id->0@ != self_id
    &&& exists|j: int| 0 <= j < c.mounts@.len() && mount_source_in(#[trigger] c.mounts@[j], sources)
}

/// The ids of the dependent containers, in listing order.
pub open spec fn dependent_ids_of(
    cs: Seq<ContainerRecord>,
    sources: Seq<Seq<char>>,
    self_id: Seq<char>,
) -> Seq<Seq<char>>
    decreases cs.len(),
{
    if cs.len() == 0 {
        Seq::empty()
    } else {
        let rest = dependent_ids_of(cs.drop_first(), sources, self_id);
        if is_dependent(cs[0], sources, self_id) {
            seq![cs[0].id->0@] + rest
        } else {
            rest
        }
    }
}

proof fn lemma_dependent_ids_snoc(
    cs: Seq<ContainerRecord>,
    sources: Seq<Seq<char>>,
    self_id: Seq<char>,
    k: int,
)
    requires
        0 <= k < cs.len(),
    ensures
        dependent_ids_of(cs.take(k + 1), sources, self_id) == dependent_ids_of(
            cs.take(k),
            sources,
            self_id,
        ) + (if is_dependent(cs[k], sources, self_id) {
            seq![cs[k].id->0@]
        } else {
            Seq::empty()
        }),
    decreases cs.len(),
{
    let tail = if is_dependent(cs[k], sources, self_id) {
        seq![cs[k].id->0@]
    } else {
        Seq::<Seq<char>>::empty()
    };
    if k == 0 {
        assert(cs.take(1).drop_first() =~= cs.take(0));
        assert(cs.take(1)[0] == cs[0]);
        assert(dependent_ids_of(cs.take(0), sources, self_id) + tail =~= tail);
        if !is_dependent(cs[0], sources, self_id) {
            assert(dependent_ids_of(cs.take(1), sources, self_id) =~= Seq::<Seq<char>>::empty());
        } else {
            assert(seq![cs[0].id->0@] + Seq::<Seq<char>>::empty() =~= seq![cs[0].id->0@]);
        }
    } else {
        let d = cs.drop_first();
        assert(cs.take(k + 1).drop_first() =~= d.take(k));
        assert(cs.take(k).drop_first() =~= d.take(k - 1));
        assert(cs.take(k + 1)[0] == cs[0]);
        assert(cs.take(k)[0] == cs[0]);
        lemma_dependent_ids_snoc(d, sources, self_id, k - 1);
        assert(d[k - 1] == cs[k]);
        if is_dependent(cs[0], sources, self_id) {
            let h = seq![cs[0].id->0@];
            assert(h + (dependent_ids_of(d.take(k - 1), sources, self_id) + tail) =~= (h
                + dependent_ids_of(d.take(k - 1), sources, self_id)) + tail);
        }
    }
}

/// Whether `s` is one of the strings of `v`.
fn contains_str(v: &Vec<String>, s: &str) -> (r: bool)
    ensures
        r == v@.map_values(|x: String| x@).contains(s@),
{
    let ghost vs = v@.map_values(|x: String| x@);
    let mut j: usize = 0;
    while j < v.len()
        invariant
            j <= v@.len(),
            vs == v@.map_values(|x: String| x@),
            forall|i: int| 0 <= i < j ==> #[trigger] vs[i] != s@,
        decreases v@.len() - j,
    {
        if str_eq(v[j].as_str(), s) {
            proof {
                assert(vs[j as int] == s@);
            }
            return true;
        }
        j = j + 1;
    }
    false
}

/// Whether some mount of `c` has its source among `sources`.
fn has_matching_mount(c: &ContainerRecord, sources: &Vec<String>) -> (r: bool)
    ensures
        r == exists|j: int|
            0 <= j < c.mounts@.len() && mount_source_in(
                #[trigger] c.mounts@[j],
                sources@.map_values(|x: String| x@),
            ),
{
    let ghost srcs = sources@.map_values(|x: String| x@);
    let mut j: usize = 0;
    while j < c.mounts.len()
        invariant
            j <= c.mounts@.len(),
            srcs == sources@.map_values(|x: String| x@),
            forall|i: int| 0 <= i < j ==> !mount_source_in(#[trigger] c.mounts@[i], srcs),
        decreases c.mounts@.len() - j,
    {
        let m = &c.mounts[j];
        let found = match &m.source {
            Some(src) => contains_str(sources, src.as_str()),
            None => false,
        };
        if found {
            proof {
                assert(mount_source_in(c.mounts@[j as int], srcs));
            }
            return true;
        }
        j = j + 1;
    }
    false
}

/// The ids of the containers that must be stopped before archiving:
/// every listed container, other than the agent's own, with a mount on
/// one of the protected sources, in listing order.
#[verifier::loop_isolation(false)]
pub fn find_containers_with_mounts(
    containers: &Vec<ContainerRecord>,
    sources: &Vec<String>,
    salvage_id: &str,
) -> (r: Vec<String>)
    ensures
        r@.map_values(|s: String| s@) == dependent_ids_of(
            containers@,
            sources@.map_values(|x: String| x@),
            salvage_id@,
        ),
{
    let ghost cs = containers@;
    let ghost srcs = sources@.map_values(|x: String| x@);
    let mut out: Vec<String> = Vec::new();
    let mut k: usize = 0;
    while k < containers.len()
        invariant
            k <= cs.len(),
            out@.map_values(|s: String| s@) == dependent_ids_of(cs.take(k as int), srcs, salvage_id@),
        decreases cs.len() - k,
    {
        let c = &containers[k];
        let dependent = match &c.id {
            Some(id) => !str_eq(id.as_str(), salvage_id) && has_matching_mount(c, sources),
            None => false,
        };
        if dependent {
            match &c.id {
                Some(id) => {
                    let ghost prev = out@;
                    out.push(id.clone());
                    proof {
                        assert(is_dependent(cs[k as int], srcs, salvage_id@));
                        assert(out@.map_values(|s: String| s@) =~= prev.map_values(|s: String| s@)
                            + seq![cs[k as int].id->0@]);
                    }
                },
                None => {},
            }
        }
        proof {
            lemma_dependent_ids_snoc(cs, srcs, salvage_id@, k as int);
            if !is_dependent(cs[k as int], srcs, salvage_id@) {
                assert(dependent_ids_of(cs.take(k as int), srcs, salvage_id@) + Seq::<
                    Seq<char>,
                >::empty() =~= dependent_ids_of(cs.take(k as int), srcs, salvage_id@));
            }
        }
        k = k + 1;
    }
    proof {
        assert(cs.take(cs.len() as int) =~= cs);
    }
    out
}

/// Whether `id` is the id of a listed dependent container.
pub open spec fn id_of_dependent(
    cs: Seq<ContainerRecord>,
    sources: Seq<Seq<char>>,
    self_id: Seq<char>,
    id: Seq<char>,
) -> bool {
    exists|i: int|
        0 <= i < cs.len() && is_dependent(#[trigger] cs[i], sources, self_id) && cs[i].id->0@ == id
}

/// Law: the agent's own id is never in the dependent set, and every id
/// in the set belongs to a listed container that mounts one of the
/// protected sources.
pub proof fn lemma_dependents_exclude_self(
    cs: Seq<ContainerRecord>,
    sources: Seq<Seq<char>>,
    self_id: Seq<char>,
)
    ensures
        !dependent_ids_of(cs, sources, self_id).contains(self_id),
        forall|k: int|
            0 <= k < dependent_ids_of(cs, sources, self_id).len() ==> id_of_dependent(
                cs,
                sources,
                self_id,
                #[trigger] dependent_ids_of(cs, sources, self_id)[k],
            ),
    decreases cs.len(),
{
    let ids = dependent_ids_of(cs, sources, self_id);
    if cs.len() > 0 {
        let d = cs.drop_first();
        lemma_dependents_exclude_self(d, sources, self_id);
        let rest = dependent_ids_of(d, sources, self_id);
        assert(forall|i: int| 0 <= i < d.len() ==> #[trigger] d[i] == cs[i + 1]);
        if is_dependent(cs[0], sources, self_id) {
            assert(ids == seq![cs[0].id->0@] + rest);
            assert(ids[0] == cs[0].id->0@);
            assert(forall|k: int| 1 <= k < ids.len() ==> #[trigger] ids[k] == rest[k - 1]);
            assert forall|k: int| 0 <= k < ids.len() implies id_of_dependent(
                cs,
                sources,
                self_id,
                #[trigger] ids[k],
            ) by {
                if k == 0 {
                    assert(is_dependent(cs[0], sources, self_id) && cs[0].id->0@ == ids[0]);
                } else {
                    assert(id_of_dependent(d, sources, self_id, rest[k - 1]));
                    let i = choose|i: int|
                        0 <= i < d.len() && is_dependent(#[trigger] d[i], sources, self_id)
                            && d[i].id->0@ == rest[k - 1];
                    assert(is_dependent(cs[i + 1], sources, self_id) && cs[i + 1].id->0@ == ids[k]);
                }
            }
            if ids.contains(self_id) {
                let k = choose|k: int| 0 <= k < ids.len() && ids[k] == self_id;
                if k == 0 {
                    assert(cs[0].id->0@ != self_id);
                } else {
                    assert(rest[k - 1] == self_id);
                    assert(rest.contains(self_id));
                }
            }
        } else {
            assert(ids == rest);
            assert forall|k: int| 0 <= k < ids.len() implies id_of_dependent(
                cs,
                sources,
                self_id,
                #[trigger] ids[k],
            ) by {
                assert(id_of_dependent(d, sources, self_id, rest[k]));
                let i = choose|i: int|
                    0 <= i < d.len() && is_dependent(#[trigger] d[i], sources, self_id)
                        && d[i].id->0@ == rest[k];
                assert(is_dependent(cs[i + 1], sources, self_id) && cs[i + 1].id->0@ == ids[k]);
            }
        }
    }
}

} // verus!
