//! Properties that relate the pieces of configuration resolution.
use vstd::prelude::*;
use crate::catalog::{config_names, is_config_name};
use crate::level::{decimal, lemma_decimal_round_trip, level_value, next_level, unsigned_part};
use crate::locate::{
    discover, extension_of, file_name_of, marker_path, nearest_marker, resolve_explicit, with_ext,
    yaml_ext, yml_ext, Resolution,
};
use crate::path::{ancestors, join, lemma_ancestors_shrink, parent_of};

verus! {

proof fn lemma_nearest_at(dirs: Seq<Seq<char>>, present: Seq<bool>, off: int, i: int)
    requires
        0 <= off,
        0 <= i < dirs.len(),
        off + i < present.len(),
        present[off + i],
        forall|j: int| 0 <= j < i ==> !#[trigger] present[off + j],
    ensures
        nearest_marker(dirs, present, off) == Some(marker_path(dirs[i])),
    decreases i,
{
    if i > 0 {
        assert(!present[off + 0]);
        assert forall|j: int| 0 <= j < i - 1 implies !#[trigger] present[(off + 1) + j] by {
            assert(!present[off + (j + 1)]);
        }
        lemma_nearest_at(dirs.drop_first(), present, off + 1, i - 1);
        assert(dirs.drop_first()[i - 1] == dirs[i]);
    }
}

proof fn lemma_nearest_none(dirs: Seq<Seq<char>>, present: Seq<bool>, off: int)
    requires
        0 <= off,
        forall|j: int| 0 <= j < dirs.len() && off + j < present.len() ==> !#[trigger] present[off + j],
    ensures
        nearest_marker(dirs, present, off) is None,
    decreases dirs.len(),
{
    if dirs.len() > 0 {
        if off < present.len() {
            assert(!present[off + 0]);
        }
        assert forall|j: int| 0 <= j < dirs.len() - 1 && (off + 1) + j < present.len() implies !#[trigger] present[(off + 1) + j] by {
            assert(!present[off + (j + 1)]);
        }
        lemma_nearest_none(dirs.drop_first(), present, off + 1);
    }
}

/// Discovery from `start` finds the marker of the `i`-th directory above it
/// (counting `start` itself as the 0-th) when that directory holds one and
/// none of the directories between does: the closest marker wins over any
/// farther ancestor's.
pub proof fn lemma_discovery_closest_wins(start: Seq<char>, present: Seq<bool>, i: int)
    requires
        0 <= i < ancestors(start).len(),
        i < present.len(),
        present[i],
        forall|j: int| 0 <= j < i ==> !#[trigger] present[j],
    ensures
        discover(start, present) == Some(marker_path(ancestors(start)[i])),
{
    assert forall|j: int| 0 <= j < i implies !#[trigger] present[0 + j] by {
        assert(!present[j]);
    }
    lemma_nearest_at(ancestors(start), present, 0, i);
}

proof fn lemma_nearest_found(dirs: Seq<Seq<char>>, present: Seq<bool>, off: int)
    requires
        0 <= off,
    ensures
        nearest_marker(dirs, present, off) matches Some(p) ==> exists|i: int|
            0 <= i < dirs.len() && off + i < present.len() && present[off + i] && p == marker_path(
                dirs[i],
            ) && forall|j: int| 0 <= j < i ==> !#[trigger] present[off + j],
    decreases dirs.len(),
{
    if dirs.len() > 0 && !(off < present.len() && present[off]) {
        lemma_nearest_found(dirs.drop_first(), present, off + 1);
        if let Some(p) = nearest_marker(dirs, present, off) {
            let i = choose|i: int|
                0 <= i < dirs.len() - 1 && off + 1 + i < present.len() && present[off + 1 + i]
                    && p == marker_path(dirs.drop_first()[i]) && forall|j: int|
                    0 <= j < i ==> !#[trigger] present[off + 1 + j];
            assert(dirs.drop_first()[i] == dirs[i + 1]);
            assert(present[off + (i + 1)]);
            assert forall|j: int| 0 <= j < i + 1 implies !#[trigger] present[off + j] by {
                if j > 0 {
                    assert(!present[off + 1 + (j - 1)]);
                }
            }
        }
    } else if dirs.len() > 0 {
        assert(present[off + 0]);
    }
}

/// Whatever discovery finds is the marker of an ancestor that holds one, and
/// no nearer ancestor holds one.
pub proof fn lemma_discovery_finds_nearest(start: Seq<char>, present: Seq<bool>)
    ensures
        discover(start, present) matches Some(p) ==> exists|i: int|
            0 <= i < ancestors(start).len() && i < present.len() && present[i] && p
                == marker_path(ancestors(start)[i]) && forall|j: int|
                0 <= j < i ==> !#[trigger] present[j],
{
    lemma_nearest_found(ancestors(start), present, 0);
    if let Some(p) = discover(start, present) {
        let i = choose|i: int|
            0 <= i < ancestors(start).len() && 0 + i < present.len() && present[0 + i] && p
                == marker_path(ancestors(start)[i]) && forall|j: int|
                0 <= j < i ==> !#[trigger] present[0 + j];
        assert(present[i]);
        assert forall|j: int| 0 <= j < i implies !#[trigger] present[j] by {
            assert(!present[0 + j]);
        }
    }
}

/// With no marker in any ancestor, discovery reports nothing found.
pub proof fn lemma_discovery_without_marker(start: Seq<char>, present: Seq<bool>)
    requires
        forall|j: int| 0 <= j < ancestors(start).len() && j < present.len() ==> !#[trigger] present[j],
    ensures
        discover(start, present) is None,
{
    assert forall|j: int| 0 <= j < ancestors(start).len() && 0 + j < present.len() implies !#[trigger] present[0 + j] by {
        assert(!present[j]);
    }
    lemma_nearest_none(ancestors(start), present, 0);
}

/// The root has no parent, so discovery from it looks at the root alone, and
/// every walk visits each directory once and ends.
pub proof fn lemma_root_ends_walk(start: Seq<char>)
    ensures
        parent_of(seq!['/']) is None,
        ancestors(seq!['/']) == seq![seq!['/']],
        ancestors(start).len() <= start.len() + 1,
        forall|i: int, j: int|
            0 <= i < j < ancestors(start).len() ==> ancestors(start)[i] != ancestors(start)[j],
{
    lemma_ancestors_shrink(start);
    assert(parent_of(seq!['/']) is None);
    assert(ancestors(seq!['/']) =~= seq![seq!['/']]);
    assert forall|i: int, j: int| 0 <= i < j < ancestors(start).len() implies ancestors(start)[i]
        != ancestors(start)[j] by {
        assert(ancestors(start)[j].len() < ancestors(start)[i].len());
    }
}

/// An explicit name without extension whose `.yaml` and `.yml` variants both
/// exist is refused as a conflict naming exactly those two paths; which one
/// came first plays no part.
pub proof fn lemma_both_variants_conflict(dir: Seq<char>, filename: Seq<char>)
    requires
        extension_of(file_name_of(join(dir, filename))) is None,
    ensures
        resolve_explicit(dir, filename, true, true) == Resolution::Conflict(
            with_ext(join(dir, filename), yaml_ext()),
            with_ext(join(dir, filename), yml_ext()),
        ),
{
}

/// An explicit name without extension of which exactly one variant exists
/// resolves to that variant.
pub proof fn lemma_single_variant_found(dir: Seq<char>, filename: Seq<char>, yaml_exists: bool)
    requires
        extension_of(file_name_of(join(dir, filename))) is None,
    ensures
        resolve_explicit(dir, filename, yaml_exists, !yaml_exists) == Resolution::Found(
            if yaml_exists {
                with_ext(join(dir, filename), yaml_ext())
            } else {
                with_ext(join(dir, filename), yml_ext())
            },
        ),
{
}

/// Inside a session at depth `n` the next one is at depth `n + 1`; without a
/// depth, or with one that is not a number, it is at depth 1.
pub proof fn lemma_level_increments(n: nat, other: Seq<char>)
    requires
        n <= u32::MAX,
        level_value(other) is None,
    ensures
        next_level(Some(decimal(n))) == n + 1,
        next_level(Some(other)) == 1,
        next_level(None) == 1,
{
    lemma_decimal_round_trip(n);
    assert(unsigned_part(decimal(n)) == decimal(n));
}

/// A directory in which no name carries a configuration extension lists nothing.
pub proof fn lemma_catalog_without_configs(names: Seq<Seq<char>>)
    requires
        forall|i: int| 0 <= i < names.len() ==> !is_config_name(#[trigger] names[i]),
    ensures
        config_names(names).len() == 0,
    decreases names.len(),
{
    if names.len() > 0 {
        assert(!is_config_name(names[names.len() - 1]));
        assert forall|i: int| 0 <= i < names.drop_last().len() implies !is_config_name(
            #[trigger] names.drop_last()[i],
        ) by {
            assert(names.drop_last()[i] == names[i]);
        }
        lemma_catalog_without_configs(names.drop_last());
    }
}

} // verus!
