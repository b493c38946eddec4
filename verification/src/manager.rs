//! The mapping lifecycle manager: owns the mapping table and the
//! bookkeeping of the per-mapping background refresh tasks.
//!
//! The manager is the sole owner of the mapping set. Every operation is
//! all-or-nothing: a rejected `add` or `update` leaves the table exactly as
//! it was. The task bookkeeping records which mapping ids have a running
//! refresh task; the host process that actually spawns and cancels tasks
//! mirrors these records, calling [`MappingManager::apply_refresh_outcome`]
//! with each refresh result. Well-formedness ([`wf_view`]) guarantees the
//! central discipline: at most one task per id, a task only for a stored
//! mapping that is `Active` or `Error`, and every `Active` mapping has its
//! task.

use crate::parse::has_s3_scheme;
use crate::types::MapError;
use crate::types::Mapping;
use crate::types::MappingStatus;
use crate::types::MappingView;
use crate::types::RefreshLog;
use crate::types::RefreshLogView;
use vstd::multiset::Multiset;
use vstd::prelude::*;

verus! {

broadcast use vstd::seq_lib::group_to_multiset_ensures, vstd::multiset::group_multiset_axioms;

/// The views of a sequence of mappings, in order.
pub open spec fn mapping_views(ms: Seq<Mapping>) -> Seq<MappingView> {
    ms.map_values(|m: Mapping| m@)
}

/// Mathematical value of a [`MappingManager`]: the stored mappings in table
/// order, and the bag of mapping ids that have a running refresh task.
#[verifier::ext_equal]
pub struct ManagerView {
    pub mappings: Seq<MappingView>,
    pub tasks: Multiset<u64>,
}

/// No two stored mappings share an id.
pub open spec fn ids_unique(ms: Seq<MappingView>) -> bool {
    forall|i: int, j: int| 0 <= i < j < ms.len() ==> ms[i].id != ms[j].id
}

/// No two stored mappings share a public hostname.
pub open spec fn hosts_unique(ms: Seq<MappingView>) -> bool {
    forall|i: int, j: int| 0 <= i < j < ms.len() ==> ms[i].short_url != ms[j].short_url
}

/// Some stored mapping has id `id`.
pub open spec fn contains_id(ms: Seq<MappingView>, id: u64) -> bool {
    exists|i: int| 0 <= i < ms.len() && ms[i].id == id
}

/// Some stored mapping has hostname `host`.
pub open spec fn contains_host(ms: Seq<MappingView>, host: Seq<char>) -> bool {
    exists|i: int| 0 <= i < ms.len() && ms[i].short_url == host
}

/// Some stored mapping other than the one with id `id` has hostname `host`.
pub open spec fn contains_other_host(ms: Seq<MappingView>, id: u64, host: Seq<char>) -> bool {
    exists|i: int| 0 <= i < ms.len() && ms[i].id != id && ms[i].short_url == host
}

/// Index of the stored mapping with id `id` (meaningful under
/// [`contains_id`]; unique under [`ids_unique`]).
pub open spec fn id_index(ms: Seq<MappingView>, id: u64) -> int {
    choose|i: int| 0 <= i < ms.len() && ms[i].id == id
}

/// The stored mapping with id `id`, if any.
pub open spec fn lookup(ms: Seq<MappingView>, id: u64) -> Option<MappingView> {
    if contains_id(ms, id) {
        Some(ms[id_index(ms, id)])
    } else {
        None
    }
}

/// A task for `id` is backed by a stored mapping in a running state
/// (`Active`, or `Error` while it keeps being retried on schedule).
pub open spec fn task_backed(ms: Seq<MappingView>, id: u64) -> bool {
    exists|i: int|
        0 <= i < ms.len() && ms[i].id == id && (ms[i].status == MappingStatus::Active || ms[i].status
            == MappingStatus::Error)
}

/// Well-formedness of the manager state: unique ids, unique hostnames,
/// never more than one task per id, every task backed by a stored `Active`
/// or `Error` mapping, and every `Active` mapping owning a task.
pub open spec fn wf_view(v: ManagerView) -> bool {
    &&& ids_unique(v.mappings)
    &&& hosts_unique(v.mappings)
    &&& forall|x: u64| #[trigger] v.tasks.count(x) <= 1
    &&& forall|x: u64| #[trigger] v.tasks.count(x) > 0 ==> task_backed(v.mappings, x)
    &&& forall|i: int|
        0 <= i < v.mappings.len() && v.mappings[i].status == MappingStatus::Active
            ==> #[trigger] v.tasks.count(v.mappings[i].id) > 0
}

/// A mapping as stored by a successful `add`: activated and stamped.
pub open spec fn activated(m: MappingView, now: i64) -> MappingView {
    MappingView { status: MappingStatus::Active, updated_at: now, ..m }
}

/// Outcome of `add`: `InvalidSource` without the scheme prefix, then
/// `AlreadyExists` on an id collision, then `HostnameConflict` when another
/// mapping claims the hostname; otherwise the new mapping's id.
pub open spec fn add_result(v: ManagerView, m: MappingView) -> Result<u64, MapError> {
    if !has_s3_scheme(m.s3_url) {
        Err(MapError::InvalidSource)
    } else if contains_id(v.mappings, m.id) {
        Err(MapError::AlreadyExists)
    } else if contains_host(v.mappings, m.short_url) {
        Err(MapError::HostnameConflict)
    } else {
        Ok(m.id)
    }
}

/// State after `add`: on success the activated mapping is appended and its
/// task recorded; on failure the state is unchanged.
pub open spec fn add_state(v: ManagerView, m: MappingView, now: i64) -> ManagerView {
    if add_result(v, m) is Ok {
        ManagerView { mappings: v.mappings.push(activated(m, now)), tasks: v.tasks.insert(m.id) }
    } else {
        v
    }
}

/// Adding a draft whose storage URI lacks the scheme prefix always fails
/// with `InvalidSource` and leaves the manager exactly as it was: no
/// partial insert, no task started.
pub proof fn lemma_add_invalid_source(v: ManagerView, m: MappingView, now: i64)
    requires
        !has_s3_scheme(m.s3_url),
    ensures
        add_result(v, m) == Err::<u64, MapError>(MapError::InvalidSource),
        add_state(v, m, now) == v,
{
}

/// After a successful `add`, the mapping is stored under its id with status
/// `Active`, exactly one refresh task runs for it, and the manager is still
/// well formed.
pub proof fn lemma_add_active(v: ManagerView, m: MappingView, now: i64)
    requires
        wf_view(v),
        add_result(v, m) is Ok,
    ensures
        wf_view(add_state(v, m, now)),
        lookup(add_state(v, m, now).mappings, m.id) == Some(activated(m, now)),
        activated(m, now).status == MappingStatus::Active,
        add_state(v, m, now).tasks.count(m.id) == 1,
{
    let v2 = add_state(v, m, now);
    let ms2 = v2.mappings;
    let n = v.mappings.len() as int;
    assert(ms2[n] == activated(m, now));
    assert(contains_id(ms2, m.id));
    // the old table has no mapping with this id, so no task for it either
    assert(v.tasks.count(m.id) == 0) by {
        if v.tasks.count(m.id) > 0 {
            assert(task_backed(v.mappings, m.id));
            assert(contains_id(v.mappings, m.id));
        }
    }
    assert(v2.tasks.count(m.id) == 1);
    assert(ids_unique(ms2)) by {
        assert(forall|i: int| 0 <= i < n ==> ms2[i] == v.mappings[i]);
        assert(forall|i: int| 0 <= i < n ==> !(#[trigger] v.mappings[i].id == m.id)) by {
            if exists|i: int| 0 <= i < n && v.mappings[i].id == m.id {
                assert(contains_id(v.mappings, m.id));
            }
        }
    }
    assert(hosts_unique(ms2)) by {
        assert(forall|i: int| 0 <= i < n ==> !(#[trigger] v.mappings[i].short_url == m.short_url))
            by {
            if exists|i: int| 0 <= i < n && v.mappings[i].short_url == m.short_url {
                assert(contains_host(v.mappings, m.short_url));
            }
        }
    }
    assert forall|x: u64| #[trigger] v2.tasks.count(x) > 0 implies task_backed(ms2, x) by {
        if x == m.id {
            assert(ms2[n].id == x && ms2[n].status == MappingStatus::Active);
        } else {
            assert(v.tasks.count(x) > 0);
            let i = choose|i: int|
                0 <= i < v.mappings.len() && v.mappings[i].id == x && (v.mappings[i].status
                    == MappingStatus::Active || v.mappings[i].status == MappingStatus::Error);
            assert(ms2[i].id == x);
        }
    }
    assert forall|i: int|
        0 <= i < ms2.len() && ms2[i].status == MappingStatus::Active implies #[trigger] v2.tasks.count(
        ms2[i].id,
    ) > 0 by {
        if i < n {
            assert(v.tasks.count(v.mappings[i].id) > 0);
        }
    }
    // the new mapping is found at the appended index
    let j = id_index(ms2, m.id);
    assert(ms2[j].id == m.id);
    if j != n {
        assert(ms2[j].id != ms2[n].id);
    }
}

/// Under unique ids, two distinct positions hold distinct ids.
proof fn lemma_ids_distinct(ms: Seq<MappingView>, i: int, j: int)
    requires
        ids_unique(ms),
        0 <= i < ms.len(),
        0 <= j < ms.len(),
        i != j,
    ensures
        ms[i].id != ms[j].id,
{
    if i < j {
        assert(ms[i].id != ms[j].id);
    } else {
        assert(ms[j].id != ms[i].id);
    }
}

/// The mapping stored by a successful `update`: the given draft under the
/// original id, stamped.
pub open spec fn replacement(m: MappingView, id: u64, now: i64) -> MappingView {
    MappingView { id: id, updated_at: now, ..m }
}

/// Outcome of `update`: `NotFound` for an unknown id, then `InvalidSource`
/// without the scheme prefix, then `HostnameConflict` when a different
/// mapping claims the hostname; otherwise success.
pub open spec fn update_result(v: ManagerView, id: u64, m: MappingView) -> Result<(), MapError> {
    if !contains_id(v.mappings, id) {
        Err(MapError::NotFound)
    } else if !has_s3_scheme(m.s3_url) {
        Err(MapError::InvalidSource)
    } else if contains_other_host(v.mappings, id, m.short_url) {
        Err(MapError::HostnameConflict)
    } else {
        Ok(())
    }
}

/// State after `update`: on success the stored mapping is replaced, its old
/// task is stopped, and a fresh task is started exactly when the
/// replacement is `Active`; on failure the state is unchanged.
pub open spec fn update_state(v: ManagerView, id: u64, m: MappingView, now: i64) -> ManagerView {
    if update_result(v, id, m) is Ok {
        ManagerView {
            mappings: v.mappings.update(id_index(v.mappings, id), replacement(m, id, now)),
            tasks: if m.status == MappingStatus::Active {
                v.tasks.remove(id).insert(id)
            } else {
                v.tasks.remove(id)
            },
        }
    } else {
        v
    }
}

/// Outcome of `delete`, `pause` and `resume`: `NotFound` for an unknown id,
/// success otherwise.
pub open spec fn found_result(v: ManagerView, id: u64) -> Result<(), MapError> {
    if contains_id(v.mappings, id) {
        Ok(())
    } else {
        Err(MapError::NotFound)
    }
}

/// State after `delete`: the mapping is removed from the table and its task
/// stopped; an unknown id changes nothing.
pub open spec fn delete_state(v: ManagerView, id: u64) -> ManagerView {
    if contains_id(v.mappings, id) {
        ManagerView {
            mappings: v.mappings.remove(id_index(v.mappings, id)),
            tasks: v.tasks.remove(id),
        }
    } else {
        v
    }
}

/// A mapping as stored by `pause`: paused and stamped.
pub open spec fn paused(m: MappingView, now: i64) -> MappingView {
    MappingView { status: MappingStatus::Paused, updated_at: now, ..m }
}

/// State after `pause`: the mapping is paused and its task stopped; an
/// unknown id changes nothing.
pub open spec fn pause_state(v: ManagerView, id: u64, now: i64) -> ManagerView {
    if contains_id(v.mappings, id) {
        let i = id_index(v.mappings, id);
        ManagerView {
            mappings: v.mappings.update(i, paused(v.mappings[i], now)),
            tasks: v.tasks.remove(id),
        }
    } else {
        v
    }
}

/// State after `resume`: the mapping is set `Active` and a task is started
/// for it, stopping any old one first; an unknown id changes nothing.
pub open spec fn resume_state(v: ManagerView, id: u64, now: i64) -> ManagerView {
    if contains_id(v.mappings, id) {
        let i = id_index(v.mappings, id);
        ManagerView {
            mappings: v.mappings.update(i, activated(v.mappings[i], now)),
            tasks: v.tasks.remove(id).insert(id),
        }
    } else {
        v
    }
}

/// Replacing the mapping stored under `id` preserves well-formedness, and
/// afterwards the replacement is found under `id`, with exactly one task
/// when it is `Active` and none otherwise.
pub proof fn lemma_update_wf(v: ManagerView, id: u64, m: MappingView, now: i64)
    requires
        wf_view(v),
    ensures
        wf_view(update_state(v, id, m, now)),
        update_result(v, id, m) is Ok ==> lookup(update_state(v, id, m, now).mappings, id)
            == Some(replacement(m, id, now)),
        update_result(v, id, m) is Ok && m.status == MappingStatus::Active ==> update_state(
            v,
            id,
            m,
            now,
        ).tasks.count(id) == 1,
        update_result(v, id, m) is Ok && m.status != MappingStatus::Active ==> update_state(
            v,
            id,
            m,
            now,
        ).tasks.count(id) == 0,
{
    if update_result(v, id, m) is Ok {
        let i = id_index(v.mappings, id);
        assert(0 <= i < v.mappings.len() && v.mappings[i].id == id);
        let stored = replacement(m, id, now);
        let v2 = update_state(v, id, m, now);
        let ms2 = v2.mappings;
        assert(ms2[i] == stored);
        assert(forall|k: int| 0 <= k < ms2.len() && k != i ==> ms2[k] == v.mappings[k]);
        assert(v2.tasks.count(id) == (if m.status == MappingStatus::Active {
            1int
        } else {
            0int
        }));
        assert(forall|x: u64| x != id ==> #[trigger] v2.tasks.count(x) == v.tasks.count(x));
        assert(ids_unique(ms2)) by {
            assert forall|a: int, b: int| 0 <= a < b < ms2.len() implies ms2[a].id != ms2[b].id by {
                if a == i {
                    lemma_ids_distinct(v.mappings, i, b);
                } else if b == i {
                    lemma_ids_distinct(v.mappings, a, i);
                }
            }
        }
        assert(hosts_unique(ms2)) by {
            assert forall|a: int, b: int|
                0 <= a < b < ms2.len() implies ms2[a].short_url != ms2[b].short_url by {
                if a == i {
                    lemma_ids_distinct(v.mappings, i, b);
                    assert(!(v.mappings[b].id != id && v.mappings[b].short_url == m.short_url));
                } else if b == i {
                    lemma_ids_distinct(v.mappings, a, i);
                    assert(!(v.mappings[a].id != id && v.mappings[a].short_url == m.short_url));
                }
            }
        }
        assert forall|x: u64| #[trigger] v2.tasks.count(x) > 0 implies task_backed(ms2, x) by {
            if x == id {
                assert(ms2[i].id == id && ms2[i].status == MappingStatus::Active);
            } else {
                assert(v.tasks.count(x) > 0);
                let j = choose|j: int|
                    0 <= j < v.mappings.len() && v.mappings[j].id == x && (v.mappings[j].status
                        == MappingStatus::Active || v.mappings[j].status == MappingStatus::Error);
                assert(j != i);
                assert(ms2[j].id == x);
            }
        }
        assert forall|k: int|
            0 <= k < ms2.len() && ms2[k].status == MappingStatus::Active implies #[trigger] v2.tasks.count(
            ms2[k].id,
        ) > 0 by {
            if k != i {
                lemma_ids_distinct(v.mappings, i, k);
                assert(v.tasks.count(v.mappings[k].id) > 0);
            }
        }
        lemma_lookup_at(ms2, id, i);
    }
}

/// `delete` on an unknown id fails with `NotFound` and leaves the manager
/// exactly as it was.
pub proof fn lemma_delete_missing(v: ManagerView, id: u64)
    requires
        !contains_id(v.mappings, id),
    ensures
        found_result(v, id) == Err::<(), MapError>(MapError::NotFound),
        delete_state(v, id) == v,
{
}

/// Removing a mapping and stopping its task preserves well-formedness, and
/// afterwards nothing is stored under the id and no task runs for it.
pub proof fn lemma_delete_wf(v: ManagerView, id: u64)
    requires
        wf_view(v),
    ensures
        wf_view(delete_state(v, id)),
        !contains_id(delete_state(v, id).mappings, id),
        delete_state(v, id).tasks.count(id) == 0,
{
    if contains_id(v.mappings, id) {
        let i = id_index(v.mappings, id);
        assert(0 <= i < v.mappings.len() && v.mappings[i].id == id);
        let v2 = delete_state(v, id);
        let ms2 = v2.mappings;
        v.mappings.remove_ensures(i);
        assert(forall|k: int| 0 <= k < i ==> ms2[k] == v.mappings[k]);
        assert(forall|k: int| i <= k < ms2.len() ==> ms2[k] == v.mappings[k + 1]);
        assert(forall|x: u64| x != id ==> #[trigger] v2.tasks.count(x) == v.tasks.count(x));
        assert(v2.tasks.count(id) == 0);
        assert(!contains_id(ms2, id)) by {
            if contains_id(ms2, id) {
                let a = choose|a: int| 0 <= a < ms2.len() && ms2[a].id == id;
                if a < i {
                    lemma_ids_distinct(v.mappings, a, i);
                } else {
                    lemma_ids_distinct(v.mappings, a + 1, i);
                }
            }
        }
        assert(ids_unique(ms2)) by {
            assert forall|a: int, b: int| 0 <= a < b < ms2.len() implies ms2[a].id != ms2[b].id by {
                let a2: int = if a < i {
                    a
                } else {
                    a + 1
                };
                let b2: int = if b < i {
                    b
                } else {
                    b + 1
                };
                lemma_ids_distinct(v.mappings, a2, b2);
            }
        }
        assert(hosts_unique(ms2)) by {
            assert forall|a: int, b: int|
                0 <= a < b < ms2.len() implies ms2[a].short_url != ms2[b].short_url by {
                let a2: int = if a < i {
                    a
                } else {
                    a + 1
                };
                let b2: int = if b < i {
                    b
                } else {
                    b + 1
                };
                assert(ms2[a] == v.mappings[a2]);
                assert(ms2[b] == v.mappings[b2]);
                if a2 < b2 {
                    assert(v.mappings[a2].short_url != v.mappings[b2].short_url);
                }
            }
        }
        assert forall|x: u64| #[trigger] v2.tasks.count(x) > 0 implies task_backed(ms2, x) by {
            assert(v.tasks.count(x) > 0);
            let j = choose|j: int|
                0 <= j < v.mappings.len() && v.mappings[j].id == x && (v.mappings[j].status
                    == MappingStatus::Active || v.mappings[j].status == MappingStatus::Error);
            assert(x != id);
            assert(j != i);
            if j < i {
                assert(ms2[j].id == x);
            } else {
                assert(ms2[j - 1].id == x);
            }
        }
        assert forall|k: int|
            0 <= k < ms2.len() && ms2[k].status == MappingStatus::Active implies #[trigger] v2.tasks.count(
            ms2[k].id,
        ) > 0 by {
            let k2: int = if k < i {
                k
            } else {
                k + 1
            };
            assert(ms2[k] == v.mappings[k2]);
            assert(v.tasks.count(v.mappings[k2].id) > 0);
            lemma_ids_distinct(v.mappings, k2, i);
        }
    }
}

/// Pausing preserves well-formedness; afterwards the mapping is stored
/// `Paused` and no task runs for it.
pub proof fn lemma_pause_wf(v: ManagerView, id: u64, now: i64)
    requires
        wf_view(v),
    ensures
        wf_view(pause_state(v, id, now)),
        contains_id(v.mappings, id) ==> lookup(pause_state(v, id, now).mappings, id) == Some(
            paused(v.mappings[id_index(v.mappings, id)], now),
        ),
        pause_state(v, id, now).tasks.count(id) == 0,
        !contains_id(v.mappings, id) ==> pause_state(v, id, now) == v,
{
    if contains_id(v.mappings, id) {
        let i = id_index(v.mappings, id);
        assert(0 <= i < v.mappings.len() && v.mappings[i].id == id);
        let v2 = pause_state(v, id, now);
        let ms2 = v2.mappings;
        assert(forall|k: int| 0 <= k < ms2.len() && k != i ==> ms2[k] == v.mappings[k]);
        assert(forall|x: u64| x != id ==> #[trigger] v2.tasks.count(x) == v.tasks.count(x));
        assert(ids_unique(ms2)) by {
            assert forall|a: int, b: int| 0 <= a < b < ms2.len() implies ms2[a].id != ms2[b].id by {
                if a == i {
                    lemma_ids_distinct(v.mappings, i, b);
                } else if b == i {
                    lemma_ids_distinct(v.mappings, a, i);
                }
            }
        }
        assert(hosts_unique(ms2)) by {
            assert forall|a: int, b: int|
                0 <= a < b < ms2.len() implies ms2[a].short_url != ms2[b].short_url by {
                if a == i {
                    assert(v.mappings[a].short_url != v.mappings[b].short_url);
                } else if b == i {
                    assert(v.mappings[a].short_url != v.mappings[b].short_url);
                }
            }
        }
        assert forall|x: u64| #[trigger] v2.tasks.count(x) > 0 implies task_backed(ms2, x) by {
            assert(v.tasks.count(x) > 0);
            let j = choose|j: int|
                0 <= j < v.mappings.len() && v.mappings[j].id == x && (v.mappings[j].status
                    == MappingStatus::Active || v.mappings[j].status == MappingStatus::Error);
            assert(x != id);
            assert(j != i);
            assert(ms2[j].id == x);
        }
        assert forall|k: int|
            0 <= k < ms2.len() && ms2[k].status == MappingStatus::Active implies #[trigger] v2.tasks.count(
            ms2[k].id,
        ) > 0 by {
            assert(k != i);
            lemma_ids_distinct(v.mappings, i, k);
            assert(v.tasks.count(v.mappings[k].id) > 0);
        }
        lemma_lookup_at(ms2, id, i);
    }
}

/// Resuming preserves well-formedness; afterwards the mapping is stored
/// `Active` and exactly one task runs for it.
pub proof fn lemma_resume_wf(v: ManagerView, id: u64, now: i64)
    requires
        wf_view(v),
    ensures
        wf_view(resume_state(v, id, now)),
        contains_id(v.mappings, id) ==> lookup(resume_state(v, id, now).mappings, id) == Some(
            activated(v.mappings[id_index(v.mappings, id)], now),
        ),
        contains_id(v.mappings, id) ==> resume_state(v, id, now).tasks.count(id) == 1,
        !contains_id(v.mappings, id) ==> resume_state(v, id, now) == v,
{
    if contains_id(v.mappings, id) {
        let i = id_index(v.mappings, id);
        assert(0 <= i < v.mappings.len() && v.mappings[i].id == id);
        let v2 = resume_state(v, id, now);
        let ms2 = v2.mappings;
        assert(forall|k: int| 0 <= k < ms2.len() && k != i ==> ms2[k] == v.mappings[k]);
        assert(v2.tasks.count(id) == 1);
        assert(forall|x: u64| x != id ==> #[trigger] v2.tasks.count(x) == v.tasks.count(x));
        assert(ids_unique(ms2)) by {
            assert forall|a: int, b: int| 0 <= a < b < ms2.len() implies ms2[a].id != ms2[b].id by {
                if a == i {
                    lemma_ids_distinct(v.mappings, i, b);
                } else if b == i {
                    lemma_ids_distinct(v.mappings, a, i);
                }
            }
        }
        assert(hosts_unique(ms2)) by {
            assert forall|a: int, b: int|
                0 <= a < b < ms2.len() implies ms2[a].short_url != ms2[b].short_url by {
                assert(v.mappings[a].short_url != v.mappings[b].short_url);
            }
        }
        assert forall|x: u64| #[trigger] v2.tasks.count(x) > 0 implies task_backed(ms2, x) by {
            if x == id {
                assert(ms2[i].id == id && ms2[i].status == MappingStatus::Active);
            } else {
                assert(v.tasks.count(x) > 0);
                let j = choose|j: int|
                    0 <= j < v.mappings.len() && v.mappings[j].id == x && (v.mappings[j].status
                        == MappingStatus::Active || v.mappings[j].status == MappingStatus::Error);
                assert(j != i);
                assert(ms2[j].id == x);
            }
        }
        assert forall|k: int|
            0 <= k < ms2.len() && ms2[k].status == MappingStatus::Active implies #[trigger] v2.tasks.count(
            ms2[k].id,
        ) > 0 by {
            if k != i {
                lemma_ids_distinct(v.mappings, i, k);
                assert(v.tasks.count(v.mappings[k].id) > 0);
            }
        }
        lemma_lookup_at(ms2, id, i);
    }
}

/// The next scheduled refresh time: `now` plus the refresh period in
/// milliseconds, or `None` when that does not fit the clock's range.
pub open spec fn spec_next_refresh(now: i64, interval_secs: u64) -> Option<i64> {
    if (interval_secs as int) * 1000 <= i64::MAX && (now as int) + (interval_secs as int) * 1000
        <= i64::MAX {
        Some(((now as int) + (interval_secs as int) * 1000) as i64)
    } else {
        None
    }
}

/// A mapping after a refresh outcome is folded in: success reactivates it,
/// clears the last error and stamps the refresh times; failure moves it to
/// `Error` and records the message. Either way it keeps its task and stays
/// on schedule.
pub open spec fn refreshed(m: MappingView, success: bool, message: Seq<char>, now: i64) -> MappingView {
    if success {
        MappingView {
            status: MappingStatus::Active,
            last_error: None,
            last_refresh: Some(now),
            next_refresh: spec_next_refresh(now, m.refresh_interval_secs),
            ..m
        }
    } else {
        MappingView { status: MappingStatus::Error, last_error: Some(message), ..m }
    }
}

/// The message recorded for a refresh outcome.
pub open spec fn refresh_message(success: bool, detail: Seq<char>) -> Seq<char> {
    if success {
        "Successfully refreshed presigned URL"@
    } else {
        "Failed to refresh URL: "@ + detail
    }
}

/// The failure detail carried by a refresh outcome, empty on success.
pub open spec fn outcome_detail(outcome: Result<(), String>) -> Seq<char> {
    match outcome {
        Ok(_) => Seq::empty(),
        Err(e) => e@,
    }
}

/// State after a refresh outcome is folded into the mapping under `id`;
/// tasks are untouched, and an unknown id changes nothing.
pub open spec fn refresh_state(
    v: ManagerView,
    id: u64,
    success: bool,
    message: Seq<char>,
    now: i64,
) -> ManagerView {
    if contains_id(v.mappings, id) {
        let i = id_index(v.mappings, id);
        ManagerView {
            mappings: v.mappings.update(i, refreshed(v.mappings[i], success, message, now)),
            tasks: v.tasks,
        }
    } else {
        v
    }
}

/// Folding a refresh outcome into a mapping that has a running task
/// preserves well-formedness, updates exactly that mapping, and leaves
/// every other mapping untouched: one mapping's failure cannot affect
/// others.
pub proof fn lemma_refresh_wf(v: ManagerView, id: u64, success: bool, message: Seq<char>, now: i64)
    requires
        wf_view(v),
        v.tasks.count(id) > 0,
    ensures
        wf_view(refresh_state(v, id, success, message, now)),
        contains_id(v.mappings, id),
        lookup(refresh_state(v, id, success, message, now).mappings, id) == Some(
            refreshed(v.mappings[id_index(v.mappings, id)], success, message, now),
        ),
        forall|x: u64|
            x != id ==> #[trigger] lookup(refresh_state(v, id, success, message, now).mappings, x)
                == lookup(v.mappings, x),
{
    assert(task_backed(v.mappings, id));
    assert(contains_id(v.mappings, id));
    let i = id_index(v.mappings, id);
    assert(0 <= i < v.mappings.len() && v.mappings[i].id == id);
    let v2 = refresh_state(v, id, success, message, now);
    let ms2 = v2.mappings;
    assert(ms2[i] == refreshed(v.mappings[i], success, message, now));
    assert(ms2[i].id == id);
    assert(ms2[i].status == MappingStatus::Active || ms2[i].status == MappingStatus::Error);
    assert(forall|k: int| 0 <= k < ms2.len() && k != i ==> ms2[k] == v.mappings[k]);
    assert(ids_unique(ms2)) by {
        assert forall|a: int, b: int| 0 <= a < b < ms2.len() implies ms2[a].id != ms2[b].id by {
            if a == i {
                lemma_ids_distinct(v.mappings, i, b);
            } else if b == i {
                lemma_ids_distinct(v.mappings, a, i);
            }
        }
    }
    assert(hosts_unique(ms2)) by {
        assert forall|a: int, b: int|
            0 <= a < b < ms2.len() implies ms2[a].short_url != ms2[b].short_url by {
            assert(v.mappings[a].short_url != v.mappings[b].short_url);
        }
    }
    assert forall|x: u64| #[trigger] v2.tasks.count(x) > 0 implies task_backed(ms2, x) by {
        if x == id {
            assert(ms2[i].id == id);
        } else {
            let j = choose|j: int|
                0 <= j < v.mappings.len() && v.mappings[j].id == x && (v.mappings[j].status
                    == MappingStatus::Active || v.mappings[j].status == MappingStatus::Error);
            assert(j != i);
            assert(ms2[j].id == x);
        }
    }
    assert forall|k: int|
        0 <= k < ms2.len() && ms2[k].status == MappingStatus::Active implies #[trigger] v2.tasks.count(
        ms2[k].id,
    ) > 0 by {
        if k != i {
            lemma_ids_distinct(v.mappings, i, k);
            assert(v.tasks.count(v.mappings[k].id) > 0);
        }
    }
    lemma_lookup_at(ms2, id, i);
    assert forall|x: u64| x != id implies #[trigger] lookup(ms2, x) == lookup(v.mappings, x) by {
        if contains_id(v.mappings, x) {
            let j = id_index(v.mappings, x);
            assert(0 <= j < v.mappings.len() && v.mappings[j].id == x);
            assert(j != i);
            lemma_lookup_at(v.mappings, x, j);
            lemma_lookup_at(ms2, x, j);
        } else {
            if contains_id(ms2, x) {
                let j = choose|j: int| 0 <= j < ms2.len() && ms2[j].id == x;
                assert(v.mappings[j].id == x);
            }
        }
    }
}

/// `pause` followed immediately by `resume` on the same id leaves the
/// mapping `Active` with exactly one running task: never zero, never two.
pub proof fn lemma_pause_then_resume(v: ManagerView, id: u64, t1: i64, t2: i64)
    requires
        wf_view(v),
        contains_id(v.mappings, id),
    ensures
        ({
            let v2 = resume_state(pause_state(v, id, t1), id, t2);
            &&& wf_view(v2)
            &&& v2.tasks.count(id) == 1
            &&& (lookup(v2.mappings, id) matches Some(m2) && m2.status == MappingStatus::Active)
        }),
{
    let v1 = pause_state(v, id, t1);
    lemma_pause_wf(v, id, t1);
    let i = id_index(v.mappings, id);
    assert(0 <= i < v.mappings.len() && v.mappings[i].id == id);
    assert(v1.mappings[i].id == id);
    assert(contains_id(v1.mappings, id));
    lemma_resume_wf(v1, id, t2);
}

impl View for MappingManager {
    type V = ManagerView;

    closed spec fn view(&self) -> ManagerView {
        ManagerView { mappings: mapping_views(self.mappings@), tasks: self.tasks@.to_multiset() }
    }
}

/// The mapping lifecycle manager. See the module documentation.
pub struct MappingManager {
    mappings: Vec<Mapping>,
    tasks: Vec<u64>,
}

impl MappingManager {
    /// Creates an empty manager: no mappings, no running tasks.
    pub fn new() -> (m: MappingManager)
        ensures
            m@.mappings == Seq::<MappingView>::empty(),
            m@.tasks == Multiset::<u64>::empty(),
            wf_view(m@),
    {
        let m = MappingManager { mappings: Vec::new(), tasks: Vec::new() };
        proof {
            assert(m@.mappings =~= Seq::<MappingView>::empty());
            assert(m.tasks@.to_multiset() =~= Multiset::<u64>::empty());
        }
        m
    }

    /// Index of the stored mapping with id `id`, if any.
    fn find_index(&self, id: u64) -> (r: Option<usize>)
        ensures
            match r {
                Some(i) => 0 <= i < self@.mappings.len() && self@.mappings[i as int].id == id,
                None => !contains_id(self@.mappings, id),
            },
    {
        let mut i: usize = 0;
        let n = self.mappings.len();
        while i < n
            invariant
                0 <= i <= n,
                n == self.mappings@.len(),
                forall|k: int| 0 <= k < i ==> self@.mappings[k].id != id,
            decreases n - i,
        {
            if self.mappings[i].id == id {
                return Some(i);
            }
            i = i + 1;
        }
        None
    }

    /// Whether some stored mapping claims hostname `host`.
    fn host_exists(&self, host: &String) -> (r: bool)
        ensures
            r == contains_host(self@.mappings, host@),
    {
        let mut i: usize = 0;
        let n = self.mappings.len();
        while i < n
            invariant
                0 <= i <= n,
                n == self.mappings@.len(),
                forall|k: int| 0 <= k < i ==> self@.mappings[k].short_url != host@,
            decreases n - i,
        {
            if self.mappings[i].short_url == *host {
                proof {
                    assert(self@.mappings[i as int].short_url == host@);
                }
                return true;
            }
            i = i + 1;
        }
        false
    }

    /// Adds a mapping and records its refresh task, all-or-nothing.
    ///
    /// The stored mapping is the given one with `status` set to `Active`
    /// and `updated_at` stamped with `now_ms`. Fails with `InvalidSource`
    /// when the storage URI lacks the `s3://` prefix, `AlreadyExists` on an
    /// id collision, and `HostnameConflict` when another mapping claims the
    /// hostname; on failure nothing changes.
    pub fn add_mapping(&mut self, mapping: Mapping, now_ms: i64) -> (r: Result<u64, MapError>)
        requires
            wf_view(old(self)@),
        ensures
            wf_view(final(self)@),
            r == add_result(old(self)@, mapping@),
            final(self)@ == add_state(old(self)@, mapping@, now_ms),
    {
        if !crate::parse::has_scheme_prefix(mapping.s3_url.as_str()) {
            return Err(MapError::InvalidSource);
        }
        if self.find_index(mapping.id).is_some() {
            return Err(MapError::AlreadyExists);
        }
        if self.host_exists(&mapping.short_url) {
            return Err(MapError::HostnameConflict);
        }
        let id = mapping.id;
        let mut stored = mapping;
        stored.status = MappingStatus::Active;
        stored.updated_at = now_ms;
        proof {
            lemma_add_active(old(self)@, mapping@, now_ms);
        }
        self.mappings.push(stored);
        self.tasks.push(id);
        proof {
            assert(self@.mappings =~= old(self)@.mappings.push(activated(mapping@, now_ms)));
            assert(self@.tasks =~= old(self)@.tasks.insert(id));
        }
        Ok(id)
    }

    /// Returns a copy of the mapping stored under `id`, or `None`.
    pub fn get_mapping(&self, id: u64) -> (r: Option<Mapping>)
        requires
            wf_view(self@),
        ensures
            match r {
                Some(m) => lookup(self@.mappings, id) == Some(m@),
                None => lookup(self@.mappings, id) is None,
            },
    {
        match self.find_index(id) {
            Some(i) => {
                let m = self.mappings[i].clone();
                proof {
                    lemma_lookup_at(self@.mappings, id, i as int);
                }
                Some(m)
            },
            None => None,
        }
    }

    /// Whether a stored mapping other than the one under `id` claims
    /// hostname `host`.
    fn other_host_exists(&self, id: u64, host: &String) -> (r: bool)
        ensures
            r == contains_other_host(self@.mappings, id, host@),
    {
        let mut i: usize = 0;
        let n = self.mappings.len();
        while i < n
            invariant
                0 <= i <= n,
                n == self.mappings@.len(),
                forall|k: int|
                    0 <= k < i ==> !(self@.mappings[k].id != id && self@.mappings[k].short_url
                        == host@),
            decreases n - i,
        {
            if self.mappings[i].id != id && self.mappings[i].short_url == *host {
                proof {
                    assert(self@.mappings[i as int].id != id && self@.mappings[i as int].short_url
                        == host@);
                }
                return true;
            }
            i = i + 1;
        }
        false
    }

    /// Replaces the mapping stored under `id`, stopping its task and
    /// starting a fresh one exactly when the replacement is `Active`.
    ///
    /// The replacement keeps the original id and is stamped with `now_ms`.
    /// Fails with `NotFound` for an unknown id, `InvalidSource` when the
    /// replacement's storage URI lacks the `s3://` prefix, and
    /// `HostnameConflict` when a different mapping claims the replacement's
    /// hostname; on failure nothing changes.
    pub fn update_mapping(&mut self, id: u64, updates: Mapping, now_ms: i64) -> (r: Result<
        (),
        MapError,
    >)
        requires
            wf_view(old(self)@),
        ensures
            wf_view(final(self)@),
            r == update_result(old(self)@, id, updates@),
            final(self)@ == update_state(old(self)@, id, updates@, now_ms),
    {
        let idx = match self.find_index(id) {
            Some(i) => i,
            None => {
                return Err(MapError::NotFound);
            },
        };
        if !crate::parse::has_scheme_prefix(updates.s3_url.as_str()) {
            return Err(MapError::InvalidSource);
        }
        if self.other_host_exists(id, &updates.short_url) {
            return Err(MapError::HostnameConflict);
        }
        proof {
            lemma_lookup_at(old(self)@.mappings, id, idx as int);
            lemma_update_wf(old(self)@, id, updates@, now_ms);
            lemma_tasks_nodup(self.tasks@);
        }
        let is_active = updates.status == MappingStatus::Active;
        let mut stored = updates;
        stored.id = id;
        stored.updated_at = now_ms;
        self.mappings.set(idx, stored);
        remove_task_vec(&mut self.tasks, id);
        if is_active {
            self.tasks.push(id);
        }
        proof {
            assert(self@.mappings =~= old(self)@.mappings.update(
                idx as int,
                replacement(updates@, id, now_ms),
            ));
            assert(self@.tasks =~= update_state(old(self)@, id, updates@, now_ms).tasks);
        }
        Ok(())
    }

    /// Deletes the mapping stored under `id`, stopping its task.
    ///
    /// Fails with `NotFound` for an unknown id and then changes nothing;
    /// deleting twice therefore signals `NotFound` the second time.
    pub fn delete_mapping(&mut self, id: u64) -> (r: Result<(), MapError>)
        requires
            wf_view(old(self)@),
        ensures
            wf_view(final(self)@),
            r == found_result(old(self)@, id),
            final(self)@ == delete_state(old(self)@, id),
    {
        let idx = match self.find_index(id) {
            Some(i) => i,
            None => {
                return Err(MapError::NotFound);
            },
        };
        proof {
            lemma_lookup_at(old(self)@.mappings, id, idx as int);
            lemma_delete_wf(old(self)@, id);
            lemma_tasks_nodup(self.tasks@);
        }
        let _ = self.mappings.remove(idx);
        remove_task_vec(&mut self.tasks, id);
        proof {
            assert(self@.mappings =~= old(self)@.mappings.remove(idx as int));
        }
        Ok(())
    }

    /// Pauses the mapping stored under `id`: stops its task and sets its
    /// status to `Paused`, stamped with `now_ms`.
    ///
    /// Fails with `NotFound` for an unknown id and then changes nothing.
    pub fn pause_mapping(&mut self, id: u64, now_ms: i64) -> (r: Result<(), MapError>)
        requires
            wf_view(old(self)@),
        ensures
            wf_view(final(self)@),
            r == found_result(old(self)@, id),
            final(self)@ == pause_state(old(self)@, id, now_ms),
    {
        let idx = match self.find_index(id) {
            Some(i) => i,
            None => {
                return Err(MapError::NotFound);
            },
        };
        proof {
            lemma_lookup_at(old(self)@.mappings, id, idx as int);
            lemma_pause_wf(old(self)@, id, now_ms);
            lemma_tasks_nodup(self.tasks@);
        }
        let mut m = self.mappings[idx].clone();
        m.status = MappingStatus::Paused;
        m.updated_at = now_ms;
        self.mappings.set(idx, m);
        remove_task_vec(&mut self.tasks, id);
        proof {
            assert(self@.mappings =~= old(self)@.mappings.update(
                idx as int,
                paused(old(self)@.mappings[idx as int], now_ms),
            ));
        }
        Ok(())
    }

    /// Resumes the mapping stored under `id`: sets its status to `Active`,
    /// stamped with `now_ms`, and starts a task for it, stopping any old
    /// one first so that exactly one runs.
    ///
    /// Fails with `NotFound` for an unknown id and then changes nothing.
    pub fn resume_mapping(&mut self, id: u64, now_ms: i64) -> (r: Result<(), MapError>)
        requires
            wf_view(old(self)@),
        ensures
            wf_view(final(self)@),
            r == found_result(old(self)@, id),
            final(self)@ == resume_state(old(self)@, id, now_ms),
    {
        let idx = match self.find_index(id) {
            Some(i) => i,
            None => {
                return Err(MapError::NotFound);
            },
        };
        proof {
            lemma_lookup_at(old(self)@.mappings, id, idx as int);
            lemma_resume_wf(old(self)@, id, now_ms);
            lemma_tasks_nodup(self.tasks@);
        }
        let mut m = self.mappings[idx].clone();
        m.status = MappingStatus::Active;
        m.updated_at = now_ms;
        self.mappings.set(idx, m);
        remove_task_vec(&mut self.tasks, id);
        self.tasks.push(id);
        proof {
            assert(self@.mappings =~= old(self)@.mappings.update(
                idx as int,
                activated(old(self)@.mappings[idx as int], now_ms),
            ));
            assert(self@.tasks =~= old(self)@.tasks.remove(id).insert(id));
        }
        Ok(())
    }

    /// Folds a refresh outcome into the mapping under `id`, which must have
    /// a running task, and returns the log entry to emit.
    ///
    /// Success reactivates the mapping, clears `last_error` and stamps
    /// `last_refresh` and `next_refresh`; failure moves it to `Error` and
    /// records `Failed to refresh URL: ` plus the detail. Other mappings
    /// and the task records are untouched: the task keeps running on
    /// schedule whatever the outcome.
    pub fn apply_refresh_outcome(
        &mut self,
        id: u64,
        outcome: Result<(), String>,
        now_ms: i64,
    ) -> (log: RefreshLog)
        requires
            wf_view(old(self)@),
            old(self)@.tasks.count(id) > 0,
        ensures
            wf_view(final(self)@),
            final(self)@ == refresh_state(
                old(self)@,
                id,
                outcome is Ok,
                refresh_message(outcome is Ok, outcome_detail(outcome)),
                now_ms,
            ),
            log@ == (RefreshLogView {
                mapping_id: id,
                timestamp_ms: now_ms,
                success: outcome is Ok,
                message: refresh_message(outcome is Ok, outcome_detail(outcome)),
            }),
    {
        proof {
            lemma_refresh_wf(
                old(self)@,
                id,
                outcome is Ok,
                refresh_message(outcome is Ok, outcome_detail(outcome)),
                now_ms,
            );
        }
        let idx = match self.find_index(id) {
            Some(i) => i,
            None => {
                proof {
                    assert(false);
                }
                unreached()
            },
        };
        proof {
            lemma_lookup_at(old(self)@.mappings, id, idx as int);
        }
        let success = outcome.is_ok();
        let message = match outcome {
            Ok(_) => String::from_str("Successfully refreshed presigned URL"),
            Err(detail) => {
                let mut msg = String::from_str("Failed to refresh URL: ");
                msg.append(detail.as_str());
                msg
            },
        };
        let mut m = self.mappings[idx].clone();
        if success {
            m.status = MappingStatus::Active;
            m.last_error = None;
            m.last_refresh = Some(now_ms);
            m.next_refresh = next_refresh_time(now_ms, m.refresh_interval_secs);
        } else {
            m.status = MappingStatus::Error;
            m.last_error = Some(message.clone());
        }
        self.mappings.set(idx, m);
        proof {
            assert(self@.mappings =~= old(self)@.mappings.update(
                idx as int,
                refreshed(
                    old(self)@.mappings[idx as int],
                    outcome is Ok,
                    refresh_message(outcome is Ok, outcome_detail(outcome)),
                    now_ms,
                ),
            ));
            assert(self@.tasks =~= old(self)@.tasks);
        }
        RefreshLog { mapping_id: id, timestamp_ms: now_ms, success, message }
    }

    /// Whether a refresh task is currently running for `id`.
    pub fn has_running_task(&self, id: u64) -> (r: bool)
        ensures
            r == (self@.tasks.count(id) > 0),
    {
        let mut i: usize = 0;
        let n = self.tasks.len();
        while i < n
            invariant
                0 <= i <= n,
                n == self.tasks@.len(),
                forall|k: int| 0 <= k < i ==> self.tasks@[k] != id,
            decreases n - i,
        {
            if self.tasks[i] == id {
                proof {
                    assert(self.tasks@.contains(id));
                }
                return true;
            }
            i = i + 1;
        }
        proof {
            assert(!self.tasks@.contains(id));
        }
        false
    }

    /// Number of running refresh tasks for `id`: under well-formedness one
    /// for a task that is running, zero otherwise, never two.
    pub fn task_count(&self, id: u64) -> (n: usize)
        ensures
            n == self@.tasks.count(id),
    {
        let mut n: usize = 0;
        let mut i: usize = 0;
        let len = self.tasks.len();
        while i < len
            invariant
                0 <= i <= len,
                len == self.tasks@.len(),
                n <= i,
                n == self.tasks@.take(i as int).to_multiset().count(id),
            decreases len - i,
        {
            proof {
                assert(self.tasks@.take(i as int + 1) =~= self.tasks@.take(i as int).push(
                    self.tasks@[i as int],
                ));
            }
            if self.tasks[i] == id {
                n = n + 1;
            }
            i = i + 1;
        }
        proof {
            assert(self.tasks@.take(len as int) =~= self.tasks@);
        }
        n
    }

    /// Returns a snapshot of all mappings, in table order.
    pub fn list_mappings(&self) -> (r: Vec<Mapping>)
        ensures
            mapping_views(r@) == self@.mappings,
    {
        let mut out: Vec<Mapping> = Vec::new();
        let mut i: usize = 0;
        let n = self.mappings.len();
        while i < n
            invariant
                0 <= i <= n,
                n == self.mappings@.len(),
                out@.len() == i,
                mapping_views(out@) == self@.mappings.take(i as int),
            decreases n - i,
        {
            let m = self.mappings[i].clone();
            proof {
                assert(m@ == self.mappings@[i as int]@);
            }
            out.push(m);
            proof {
                assert(mapping_views(out@) =~= self@.mappings.take(i as int + 1));
            }
            i = i + 1;
        }
        proof {
            assert(self@.mappings.take(n as int) =~= self@.mappings);
        }
        out
    }
}

/// Computes the next scheduled refresh time, or `None` when it does not
/// fit the clock's range.
fn next_refresh_time(now_ms: i64, interval_secs: u64) -> (r: Option<i64>)
    ensures
        r == spec_next_refresh(now_ms, interval_secs),
{
    if interval_secs <= (i64::MAX / 1000) as u64 {
        let ms = (interval_secs * 1000) as i64;
        if now_ms <= i64::MAX - ms {
            Some(now_ms + ms)
        } else {
            None
        }
    } else {
        None
    }
}

/// A task list whose multiset has no count above one has no duplicates.
proof fn lemma_tasks_nodup(ts: Seq<u64>)
    requires
        forall|x: u64| #[trigger] ts.to_multiset().count(x) <= 1,
    ensures
        ts.no_duplicates(),
{
    assert forall|x: u64| ts.to_multiset().contains(x) implies ts.to_multiset().count(x) == 1 by {
        assert(ts.to_multiset().count(x) > 0);
    }
    ts.lemma_multiset_has_no_duplicates_conv();
}

/// Removes the (at most one) occurrence of `id` from the task list.
fn remove_task_vec(ts: &mut Vec<u64>, id: u64)
    requires
        old(ts)@.no_duplicates(),
    ensures
        final(ts)@.to_multiset() == old(ts)@.to_multiset().remove(id),
{
    let mut i: usize = 0;
    let n = ts.len();
    while i < n && ts[i] != id
        invariant
            0 <= i <= n,
            n == ts@.len(),
            ts@ == old(ts)@,
            forall|k: int| 0 <= k < i ==> ts@[k] != id,
        decreases n - i,
    {
        i = i + 1;
    }
    if i < n {
        let _ = ts.remove(i);
        proof {
            assert(ts@.to_multiset() =~= old(ts)@.to_multiset().remove(id));
        }
    } else {
        proof {
            assert(!old(ts)@.contains(id));
            assert(old(ts)@.to_multiset().count(id) == 0);
            assert(ts@.to_multiset() =~= old(ts)@.to_multiset().remove(id));
        }
    }
}

/// Under unique ids, a mapping found at index `i` is the one `lookup`
/// returns.
pub proof fn lemma_lookup_at(ms: Seq<MappingView>, id: u64, i: int)
    requires
        ids_unique(ms),
        0 <= i < ms.len(),
        ms[i].id == id,
    ensures
        lookup(ms, id) == Some(ms[i]),
        id_index(ms, id) == i,
{
    assert(contains_id(ms, id));
    let j = id_index(ms, id);
    assert(0 <= j < ms.len() && ms[j].id == id);
    if i < j {
        assert(ms[i].id != ms[j].id);
    }
    if j < i {
        assert(ms[j].id != ms[i].id);
    }
}

} // verus!
