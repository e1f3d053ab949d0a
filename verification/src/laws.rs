//! What holds of the mapper and the walk together: a mapping that was
//! installed is found by the walk and refuses a second one, a larger page
//! refuses finer ones inside it, and no mapping disturbs another.
//!
//! The theorems ask of memory what the mapper itself keeps up: that the
//! free frames are apart from the tables in use (`free_apart`), and, where
//! they speak of addresses outside the mapped page, that the tables form a
//! tree under the root (`links_apart`, `no_link_to`).

use crate::addr::{
    flags_leaf, flags_valid, frame_in_range, lemma_decode_bounds, lemma_encode_decode,
    lemma_rewrite_flags, page_aligned, pte_addr, pte_encode, pte_leaf, pte_valid, PhysAddr,
    FRAME_MASK,
};
use crate::memory::{
    boot_tables, entry_at, frames_usable, lemma_vpn_bound, low_bits, map_from, map_page, table_at,
    tables_sized, translation, vpn, walk, with_cleared, with_entry, MapOutcome, MapToError,
    DEVICE_BASE, RAM_BASE,
};
use vstd::prelude::*;

verus! {

/// The free frames are apart from the tables in use: no frame is free
/// twice, and no entry of a frame that is not free leads into a free frame.
pub open spec fn free_apart(m: Map<u64, Seq<u64>>, free: Seq<u64>) -> bool {
    &&& free.no_duplicates()
    &&& forall|f: u64, i: int|
        0 <= i < 512 && !free.contains(f) && pte_valid(#[trigger] entry_at(m, f, i)) && !pte_leaf(
            entry_at(m, f, i),
        ) ==> !free.contains(pte_addr(entry_at(m, f, i)))
}

/// Along the indices of `page`, from the table at `table` at `level` down
/// to `target`, every entry above the target leads to the next table, and
/// the entry at the target is `word`.
pub open spec fn leaf_installed(
    m: Map<u64, Seq<u64>>,
    table: u64,
    page: u64,
    word: u64,
    target: int,
    level: int,
) -> bool
    decreases level,
{
    let e = entry_at(m, table, vpn(page, level));
    if level <= target || level <= 0 {
        e == word
    } else {
        pte_valid(e) && !pte_leaf(e) && leaf_installed(m, pte_addr(e), page, word, target, level - 1)
    }
}

/// `va` and `page` give the same index at every level from `target` to
/// `level`: `va` lies in the page that a leaf at `target` for `page` covers.
pub open spec fn same_page(va: u64, page: u64, target: int, level: int) -> bool {
    forall|l: int| target <= l <= level ==> vpn(va, l) == vpn(page, l)
}

proof fn lemma_with_entry(m: Map<u64, Seq<u64>>, frame: u64, index: int, word: u64)
    requires
        tables_sized(m),
        0 <= index < 512,
    ensures
        tables_sized(with_entry(m, frame, index, word)),
        forall|f: u64, i: int|
            0 <= i < 512 ==> #[trigger] entry_at(with_entry(m, frame, index, word), f, i) == if f
                == frame && i == index {
                word
            } else {
                entry_at(m, f, i)
            },
{
    let n = with_entry(m, frame, index, word);
    assert(table_at(m, frame).len() == 512);
    assert forall|f: u64| n.contains_key(f) implies (#[trigger] n[f]).len() == 512 by {
        if f != frame {
            assert(m.contains_key(f));
        }
    }
}

proof fn lemma_with_cleared(m: Map<u64, Seq<u64>>, frame: u64)
    requires
        tables_sized(m),
    ensures
        tables_sized(with_cleared(m, frame)),
        forall|f: u64, i: int|
            0 <= i < 512 ==> #[trigger] entry_at(with_cleared(m, frame), f, i) == if f == frame {
                entry_at(m, f, i) & FRAME_MASK
            } else {
                entry_at(m, f, i)
            },
{
    let n = with_cleared(m, frame);
    assert forall|f: u64| n.contains_key(f) implies (#[trigger] n[f]).len() == 512 by {
        if f != frame {
            assert(m.contains_key(f));
        }
    }
}

proof fn lemma_drop_last(free: Seq<u64>)
    requires
        free.len() > 0,
    ensures
        free.contains(free.last()),
        free.no_duplicates() ==> free.drop_last().no_duplicates() && !free.drop_last().contains(
            free.last(),
        ),
        forall|x: u64| free.drop_last().contains(x) ==> free.contains(x),
        forall|x: u64| free.contains(x) && x != free.last() ==> free.drop_last().contains(x),
        frames_usable(free) ==> frames_usable(free.drop_last()),
{
    let rest = free.drop_last();
    assert(free[free.len() - 1] == free.last());
    assert forall|x: u64| rest.contains(x) implies free.contains(x) by {
        let i = choose|i: int| 0 <= i < rest.len() && rest[i] == x;
        assert(free[i] == x);
    }
    if free.no_duplicates() && rest.contains(free.last()) {
        let i = choose|i: int| 0 <= i < rest.len() && rest[i] == free.last();
        assert(free[i] == free[free.len() - 1]);
    }
    assert forall|x: u64| free.contains(x) && x != free.last() implies rest.contains(x) by {
        let i = choose|i: int| 0 <= i < free.len() && free[i] == x;
        assert(rest[i] == x);
    }
    if frames_usable(free) {
        assert forall|i: int| 0 <= i < rest.len() implies page_aligned(#[trigger] rest[i])
            && frame_in_range(rest[i]) by {
            assert(rest[i] == free[i]);
        }
    }
}

/// One step of growth: the last free frame is cleared and linked in at an
/// entry that was not valid. The frames that stay free are still apart from
/// the tables, the new table among them.
proof fn lemma_grown(m: Map<u64, Seq<u64>>, free: Seq<u64>, table: u64, index: int)
    requires
        tables_sized(m),
        frames_usable(free),
        free_apart(m, free),
        !free.contains(table),
        free.len() > 0,
        0 <= index < 512,
        !pte_valid(entry_at(m, table, index)),
    ensures
        ({
            let fresh = free.last();
            let grown = with_entry(with_cleared(m, fresh), table, index, pte_encode(fresh, 1));
            let rest = free.drop_last();
            &&& tables_sized(grown)
            &&& frames_usable(rest)
            &&& free_apart(grown, rest)
            &&& !rest.contains(fresh)
            &&& !rest.contains(table)
            &&& table != fresh
            &&& entry_at(grown, table, index) == pte_encode(fresh, 1)
            &&& pte_valid(pte_encode(fresh, 1))
            &&& !pte_leaf(pte_encode(fresh, 1))
            &&& pte_addr(pte_encode(fresh, 1)) == fresh
            &&& forall|f: u64, i: int|
                0 <= i < 512 && f != fresh && !(f == table && i == index) ==> #[trigger] entry_at(
                    grown,
                    f,
                    i,
                ) == entry_at(m, f, i)
        }),
{
    let fresh = free.last();
    let cleared = with_cleared(m, fresh);
    let word = pte_encode(fresh, 1);
    let grown = with_entry(cleared, table, index, word);
    let rest = free.drop_last();
    lemma_drop_last(free);
    lemma_with_cleared(m, fresh);
    lemma_with_entry(cleared, table, index, word);
    assert(page_aligned(free[free.len() - 1]) && frame_in_range(free[free.len() - 1]));
    lemma_encode_decode(fresh, 1);
    assert(flags_valid(1) && !flags_leaf(1)) by (bit_vector);
    assert forall|f: u64, i: int|
        0 <= i < 512 && f != fresh && !(f == table && i == index) implies #[trigger] entry_at(
        grown,
        f,
        i,
    ) == entry_at(m, f, i) by {
        assert(entry_at(grown, f, i) == entry_at(cleared, f, i));
    }
    assert forall|f: u64, i: int|
        0 <= i < 512 && !rest.contains(f) && pte_valid(#[trigger] entry_at(grown, f, i))
            && !pte_leaf(entry_at(grown, f, i)) implies !rest.contains(
        pte_addr(entry_at(grown, f, i)),
    ) by {
        if f == table && i == index {
        } else if f == fresh {
            assert(entry_at(grown, f, i) == entry_at(cleared, f, i));
            lemma_rewrite_flags(entry_at(m, f, i), 0);
        } else {
            assert(entry_at(grown, f, i) == entry_at(m, f, i));
            assert(!free.contains(f));
        }
    }
}

/// A valid entry in a frame that is not free is left as it is by the
/// mapper, whatever the mapping and however it ends.
pub proof fn lemma_valid_entries_stay(
    m: Map<u64, Seq<u64>>,
    free: Seq<u64>,
    table: u64,
    page: u64,
    frame: u64,
    flags: u64,
    target: int,
    level: int,
    f: u64,
    i: int,
)
    requires
        tables_sized(m),
        0 <= i < 512,
        !free.contains(f),
        pte_valid(entry_at(m, f, i)),
    ensures
        entry_at(map_from(m, free, table, page, frame, flags, target, level).mem, f, i) == entry_at(
            m,
            f,
            i,
        ),
    decreases level,
{
    let index = vpn(page, level);
    let e = entry_at(m, table, index);
    lemma_vpn_bound(page, level);
    if level <= target || level <= 0 {
        if !pte_valid(e) {
            lemma_with_entry(m, table, index, pte_encode(frame, flags));
        }
    } else if pte_valid(e) {
        if !pte_leaf(e) {
            lemma_valid_entries_stay(m, free, pte_addr(e), page, frame, flags, target, level - 1, f, i);
        }
    } else if free.len() > 0 {
        let fresh = free.last();
        let cleared = with_cleared(m, fresh);
        let grown = with_entry(cleared, table, index, pte_encode(fresh, 1));
        assert(free[free.len() - 1] == fresh);
        lemma_with_cleared(m, fresh);
        lemma_with_entry(cleared, table, index, pte_encode(fresh, 1));
        assert(entry_at(grown, f, i) == entry_at(cleared, f, i));
        assert(entry_at(cleared, f, i) == entry_at(m, f, i));
        if free.drop_last().contains(f) {
            let k = choose|k: int| 0 <= k < free.drop_last().len() && free.drop_last()[k] == f;
            assert(free[k] == f);
        }
        lemma_valid_entries_stay(
            grown,
            free.drop_last(),
            fresh,
            page,
            frame,
            flags,
            target,
            level - 1,
            f,
            i,
        );
    }
}

/// Where the mapper succeeds, the path of `page` stands in the memory it
/// leaves: tables from `level` down to the target, and the new entry there.
pub proof fn lemma_map_installs(
    m: Map<u64, Seq<u64>>,
    free: Seq<u64>,
    table: u64,
    page: u64,
    frame: u64,
    flags: u64,
    target: int,
    level: int,
)
    requires
        tables_sized(m),
        frames_usable(free),
        free_apart(m, free),
        !free.contains(table),
        0 <= target <= level <= 2,
        map_from(m, free, table, page, frame, flags, target, level).result is Ok,
    ensures
        leaf_installed(
            map_from(m, free, table, page, frame, flags, target, level).mem,
            table,
            page,
            pte_encode(frame, flags),
            target,
            level,
        ),
    decreases level,
{
    let index = vpn(page, level);
    let e = entry_at(m, table, index);
    lemma_vpn_bound(page, level);
    if level <= target {
        lemma_with_entry(m, table, index, pte_encode(frame, flags));
    } else if pte_valid(e) {
        let next = pte_addr(e);
        lemma_map_installs(m, free, next, page, frame, flags, target, level - 1);
        lemma_valid_entries_stay(m, free, next, page, frame, flags, target, level - 1, table, index);
    } else {
        let fresh = free.last();
        let grown = with_entry(with_cleared(m, fresh), table, index, pte_encode(fresh, 1));
        lemma_grown(m, free, table, index);
        lemma_map_installs(grown, free.drop_last(), fresh, page, frame, flags, target, level - 1);
        lemma_valid_entries_stay(
            grown,
            free.drop_last(),
            fresh,
            page,
            frame,
            flags,
            target,
            level - 1,
            table,
            index,
        );
    }
}

/// Where a valid entry stands at the target of `page`, every further
/// mapping of that page at that level is refused with the address that the
/// entry holds, and neither memory nor the free frames change.
pub proof fn lemma_installed_refuses(
    m: Map<u64, Seq<u64>>,
    free: Seq<u64>,
    table: u64,
    page: u64,
    word: u64,
    frame: u64,
    flags: u64,
    target: int,
    level: int,
)
    requires
        leaf_installed(m, table, page, word, target, level),
        pte_valid(word),
    ensures
        map_from(m, free, table, page, frame, flags, target, level) == (MapOutcome {
            result: Err(MapToError::PageAlreadyMapped(PhysAddr(pte_addr(word)))),
            mem: m,
            free,
        }),
    decreases level,
{
    if !(level <= target || level <= 0) {
        let e = entry_at(m, table, vpn(page, level));
        lemma_installed_refuses(m, free, pte_addr(e), page, word, frame, flags, target, level - 1);
    }
}

/// Where a leaf stands at the target of `page`, every address of that page
/// translates to the leaf's frame plus the bits below the target level.
pub proof fn lemma_installed_translates(
    m: Map<u64, Seq<u64>>,
    table: u64,
    page: u64,
    word: u64,
    target: int,
    level: int,
    va: u64,
)
    requires
        leaf_installed(m, table, page, word, target, level),
        pte_leaf(word),
        0 <= target <= level <= 2,
        same_page(va, page, target, level),
    ensures
        walk(m, table, va, level) == Some((pte_addr(word) + low_bits(va, target)) as u64),
    decreases level,
{
    lemma_decode_bounds(word);
    assert(vpn(va, level) == vpn(page, level));
    if level > target {
        let e = entry_at(m, table, vpn(page, level));
        lemma_installed_translates(m, pte_addr(e), page, word, target, level - 1, va);
    }
}

/// The mapper leaves every translation as it was: an address that a leaf
/// covered before is mapped to the same place after, whether the mapping
/// succeeded or failed half way.
pub proof fn lemma_walk_kept(
    m: Map<u64, Seq<u64>>,
    free: Seq<u64>,
    root: u64,
    page: u64,
    frame: u64,
    flags: u64,
    target: int,
    table: u64,
    va: u64,
    level: int,
)
    requires
        tables_sized(m),
        free_apart(m, free),
        !free.contains(table),
        0 <= level <= 2,
        walk(m, table, va, level) is Some,
    ensures
        walk(map_from(m, free, root, page, frame, flags, target, 2).mem, table, va, level) == walk(
            m,
            table,
            va,
            level,
        ),
    decreases level,
{
    let index = vpn(va, level);
    let e = entry_at(m, table, index);
    lemma_vpn_bound(va, level);
    lemma_valid_entries_stay(m, free, root, page, frame, flags, target, 2, table, index);
    if !pte_leaf(e) {
        lemma_walk_kept(m, free, root, page, frame, flags, target, pte_addr(e), va, level - 1);
    }
}

/// The mapper keeps the free frames apart from the tables: where they were
/// apart before a mapping of a leaf, they are after it, whether it
/// succeeded or not, and no frame became free by it.
pub proof fn lemma_map_keeps_apart(
    m: Map<u64, Seq<u64>>,
    free: Seq<u64>,
    table: u64,
    page: u64,
    frame: u64,
    flags: u64,
    target: int,
    level: int,
)
    requires
        tables_sized(m),
        frames_usable(free),
        free_apart(m, free),
        !free.contains(table),
        page_aligned(frame),
        flags <= 0xff,
        flags_leaf(flags) || !flags_valid(flags),
    ensures
        tables_sized(map_from(m, free, table, page, frame, flags, target, level).mem),
        frames_usable(map_from(m, free, table, page, frame, flags, target, level).free),
        free_apart(
            map_from(m, free, table, page, frame, flags, target, level).mem,
            map_from(m, free, table, page, frame, flags, target, level).free,
        ),
        forall|x: u64|
            map_from(m, free, table, page, frame, flags, target, level).free.contains(x)
                ==> free.contains(x),
    decreases level,
{
    let index = vpn(page, level);
    let e = entry_at(m, table, index);
    lemma_vpn_bound(page, level);
    if level <= target || level <= 0 {
        if !pte_valid(e) {
            let word = pte_encode(frame, flags);
            let after = with_entry(m, table, index, word);
            lemma_with_entry(m, table, index, word);
            lemma_encode_decode(frame, flags);
            assert forall|f: u64, i: int|
                0 <= i < 512 && !free.contains(f) && pte_valid(#[trigger] entry_at(after, f, i))
                    && !pte_leaf(entry_at(after, f, i)) implies !free.contains(
                pte_addr(entry_at(after, f, i)),
            ) by {
                if !(f == table && i == index) {
                    assert(entry_at(after, f, i) == entry_at(m, f, i));
                }
            }
        }
    } else if pte_valid(e) {
        if !pte_leaf(e) {
            lemma_map_keeps_apart(m, free, pte_addr(e), page, frame, flags, target, level - 1);
        }
    } else if free.len() > 0 {
        let fresh = free.last();
        let grown = with_entry(with_cleared(m, fresh), table, index, pte_encode(fresh, 1));
        lemma_grown(m, free, table, index);
        lemma_drop_last(free);
        lemma_map_keeps_apart(grown, free.drop_last(), fresh, page, frame, flags, target, level - 1);
    }
}

/// A page that was mapped cannot be mapped again: after a mapping that
/// succeeded, with Valid among its flags and a frame below 2^56, every
/// further mapping of the same page at the same level is refused with the
/// frame of the first, and changes neither memory nor the free frames.
pub proof fn lemma_second_mapping_refused(
    m: Map<u64, Seq<u64>>,
    free: Seq<u64>,
    root: u64,
    page: u64,
    frame: u64,
    flags: u64,
    level: int,
    other_frame: u64,
    other_flags: u64,
)
    requires
        tables_sized(m),
        frames_usable(free),
        free_apart(m, free),
        !free.contains(root),
        0 <= level <= 2,
        page_aligned(frame),
        frame_in_range(frame),
        flags <= 0xff,
        flags_valid(flags),
        map_page(m, free, root, page, frame, flags, level).result is Ok,
    ensures
        ({
            let first = map_page(m, free, root, page, frame, flags, level);
            map_page(first.mem, first.free, root, page, other_frame, other_flags, level) == (
            MapOutcome {
                result: Err(MapToError::PageAlreadyMapped(PhysAddr(frame))),
                mem: first.mem,
                free: first.free,
            })
        }),
{
    let first = map_page(m, free, root, page, frame, flags, level);
    lemma_map_installs(m, free, root, page, frame, flags, level, 2);
    lemma_encode_decode(frame, flags);
    lemma_installed_refuses(
        first.mem,
        first.free,
        root,
        page,
        pte_encode(frame, flags),
        other_frame,
        other_flags,
        level,
        2,
    );
}

/// A page that was mapped is found by the walk: after a mapping that
/// succeeded, with leaf flags and a frame below 2^56, every address of the
/// page translates to the frame plus the address's bits below the level.
pub proof fn lemma_mapped_page_translates(
    m: Map<u64, Seq<u64>>,
    free: Seq<u64>,
    root: u64,
    page: u64,
    frame: u64,
    flags: u64,
    level: int,
    va: u64,
)
    requires
        tables_sized(m),
        frames_usable(free),
        free_apart(m, free),
        !free.contains(root),
        0 <= level <= 2,
        page_aligned(frame),
        frame_in_range(frame),
        flags <= 0xff,
        flags_leaf(flags),
        map_page(m, free, root, page, frame, flags, level).result is Ok,
        same_page(va, page, level, 2),
    ensures
        translation(map_page(m, free, root, page, frame, flags, level).mem, root, va) == Some(
            (frame + low_bits(va, level)) as u64,
        ),
{
    let first = map_page(m, free, root, page, frame, flags, level);
    lemma_map_installs(m, free, root, page, frame, flags, level, 2);
    lemma_encode_decode(frame, flags);
    lemma_installed_translates(first.mem, root, page, pte_encode(frame, flags), level, 2, va);
}

/// A larger page refuses finer ones inside it: where a leaf stands on the
/// path of `page` at `level`, a mapping of `page` at a level further in is
/// refused, takes no frame and changes nothing.
pub proof fn lemma_huge_parent_refuses(
    m: Map<u64, Seq<u64>>,
    free: Seq<u64>,
    table: u64,
    page: u64,
    word: u64,
    level: int,
    from: int,
    frame: u64,
    flags: u64,
    target: int,
)
    requires
        leaf_installed(m, table, page, word, level, from),
        pte_leaf(word),
        0 <= target < level <= from,
    ensures
        map_from(m, free, table, page, frame, flags, target, from) == (MapOutcome {
            result: Err(MapToError::ParentEntryHugePage),
            mem: m,
            free,
        }),
    decreases from,
{
    lemma_decode_bounds(word);
    if from > level {
        let e = entry_at(m, table, vpn(page, from));
        lemma_huge_parent_refuses(m, free, pte_addr(e), page, word, level, from - 1, frame, flags, target);
    }
}

/// No mapping disturbs another: an address that translated before a call
/// of the mapper translates to the same place after it.
pub proof fn lemma_translations_kept(
    m: Map<u64, Seq<u64>>,
    free: Seq<u64>,
    root: u64,
    page: u64,
    frame: u64,
    flags: u64,
    level: int,
    va: u64,
)
    requires
        tables_sized(m),
        free_apart(m, free),
        !free.contains(root),
        translation(m, root, va) is Some,
    ensures
        translation(map_page(m, free, root, page, frame, flags, level).mem, root, va)
            == translation(m, root, va),
{
    lemma_walk_kept(m, free, root, page, frame, flags, level, root, va, 2);
}

/// Where the entry of the root table for an address is not valid, the
/// address is not mapped.
pub proof fn lemma_no_entry_no_translation(m: Map<u64, Seq<u64>>, root: u64, va: u64)
    requires
        !pte_valid(entry_at(m, root, vpn(va, 2))),
    ensures
        translation(m, root, va) is None,
{
}

/// The mapper writes one leaf at most, and only where it succeeds: an entry
/// that is a leaf after the call and was not the same before it is the new
/// entry of the mapping, and no second entry is.
pub proof fn lemma_one_new_leaf(
    m: Map<u64, Seq<u64>>,
    free: Seq<u64>,
    table: u64,
    page: u64,
    frame: u64,
    flags: u64,
    target: int,
    level: int,
    f: u64,
    i: int,
    g: u64,
    j: int,
)
    requires
        tables_sized(m),
        frames_usable(free),
        0 <= i < 512,
        0 <= j < 512,
        pte_leaf(entry_at(map_from(m, free, table, page, frame, flags, target, level).mem, f, i)),
        entry_at(map_from(m, free, table, page, frame, flags, target, level).mem, f, i) != entry_at(
            m,
            f,
            i,
        ),
    ensures
        map_from(m, free, table, page, frame, flags, target, level).result is Ok,
        entry_at(map_from(m, free, table, page, frame, flags, target, level).mem, f, i)
            == pte_encode(frame, flags),
        pte_leaf(entry_at(map_from(m, free, table, page, frame, flags, target, level).mem, g, j))
            && entry_at(map_from(m, free, table, page, frame, flags, target, level).mem, g, j)
            != entry_at(m, g, j) ==> f == g && i == j,
    decreases level,
{
    let index = vpn(page, level);
    let e = entry_at(m, table, index);
    lemma_vpn_bound(page, level);
    if level <= target || level <= 0 {
        if !pte_valid(e) {
            lemma_with_entry(m, table, index, pte_encode(frame, flags));
        }
    } else if pte_valid(e) {
        if !pte_leaf(e) {
            lemma_one_new_leaf(m, free, pte_addr(e), page, frame, flags, target, level - 1, f, i, g, j);
        }
    } else if free.len() > 0 {
        let fresh = free.last();
        let cleared = with_cleared(m, fresh);
        let word = pte_encode(fresh, 1);
        let grown = with_entry(cleared, table, index, word);
        let after = map_from(m, free, table, page, frame, flags, target, level).mem;
        lemma_drop_last(free);
        lemma_with_cleared(m, fresh);
        lemma_with_entry(cleared, table, index, word);
        assert(page_aligned(free[free.len() - 1]) && frame_in_range(free[free.len() - 1]));
        lemma_encode_decode(fresh, 1);
        assert(!flags_leaf(1)) by (bit_vector);
        assert forall|x: u64, k: int| 0 <= k < 512 && pte_leaf(#[trigger] entry_at(grown, x, k)) implies entry_at(
            grown,
            x,
            k,
        ) == entry_at(m, x, k) by {
            lemma_rewrite_flags(entry_at(m, x, k), 0);
            lemma_decode_bounds(entry_at(grown, x, k));
            assert(entry_at(grown, x, k) == if x == table && k == index {
                word
            } else {
                entry_at(cleared, x, k)
            });
        }
        assert(entry_at(after, f, i) != entry_at(grown, f, i));
        lemma_one_new_leaf(grown, free.drop_last(), fresh, page, frame, flags, target, level - 1, f, i, g, j);
    }
}

/// An entry word that leads to a further table: valid, and no leaf.
pub open spec fn pte_link(word: u64) -> bool {
    pte_valid(word) && !pte_leaf(word)
}

/// No table is reached from two places: two different slots of frames that
/// are not free never lead to the same table.
pub open spec fn links_apart(m: Map<u64, Seq<u64>>, free: Seq<u64>) -> bool {
    forall|f: u64, i: int, g: u64, j: int|
        0 <= i < 512 && 0 <= j < 512 && !free.contains(f) && !free.contains(g) && pte_link(
            #[trigger] entry_at(m, f, i),
        ) && pte_link(#[trigger] entry_at(m, g, j)) && pte_addr(entry_at(m, f, i)) == pte_addr(
            entry_at(m, g, j),
        ) ==> f == g && i == j
}

/// No slot of a frame that is not free leads to the table at `table`.
pub open spec fn no_link_to(m: Map<u64, Seq<u64>>, free: Seq<u64>, table: u64) -> bool {
    forall|f: u64, i: int|
        0 <= i < 512 && !free.contains(f) && pte_link(#[trigger] entry_at(m, f, i)) ==> pte_addr(
            entry_at(m, f, i),
        ) != table
}

/// The slot `(f, i)` lies on the way that the mapper takes for `page`
/// through the tables that exist, from the table at `table` at `level`.
pub open spec fn path_slot(
    m: Map<u64, Seq<u64>>,
    table: u64,
    page: u64,
    target: int,
    level: int,
    f: u64,
    i: int,
) -> bool
    decreases level,
{
    let e = entry_at(m, table, vpn(page, level));
    ||| f == table && i == vpn(page, level)
    ||| level > target && level > 0 && pte_link(e) && path_slot(
        m,
        pte_addr(e),
        page,
        target,
        level - 1,
        f,
        i,
    )
}

/// The mapper changes no slot of a frame that is not free but those on the
/// way of the page.
pub proof fn lemma_only_path_slots_change(
    m: Map<u64, Seq<u64>>,
    free: Seq<u64>,
    table: u64,
    page: u64,
    frame: u64,
    flags: u64,
    target: int,
    level: int,
    f: u64,
    i: int,
)
    requires
        tables_sized(m),
        frames_usable(free),
        free_apart(m, free),
        !free.contains(table),
        !free.contains(f),
        0 <= i < 512,
        !path_slot(m, table, page, target, level, f, i),
    ensures
        entry_at(map_from(m, free, table, page, frame, flags, target, level).mem, f, i) == entry_at(
            m,
            f,
            i,
        ),
    decreases level,
{
    let index = vpn(page, level);
    let e = entry_at(m, table, index);
    lemma_vpn_bound(page, level);
    if level <= target || level <= 0 {
        if !pte_valid(e) {
            lemma_with_entry(m, table, index, pte_encode(frame, flags));
        }
    } else if pte_valid(e) {
        if !pte_leaf(e) {
            lemma_only_path_slots_change(
                m,
                free,
                pte_addr(e),
                page,
                frame,
                flags,
                target,
                level - 1,
                f,
                i,
            );
        }
    } else if free.len() > 0 {
        let fresh = free.last();
        let grown = with_entry(with_cleared(m, fresh), table, index, pte_encode(fresh, 1));
        lemma_grown(m, free, table, index);
        lemma_drop_last(free);
        lemma_vpn_bound(page, level - 1);
        lemma_with_cleared(m, fresh);
        lemma_with_entry(with_cleared(m, fresh), table, index, pte_encode(fresh, 1));
        lemma_rewrite_flags(entry_at(m, fresh, vpn(page, level - 1)), 0);
        assert(!pte_valid(entry_at(grown, fresh, vpn(page, level - 1))));
        lemma_only_path_slots_change(
            grown,
            free.drop_last(),
            fresh,
            page,
            frame,
            flags,
            target,
            level - 1,
            f,
            i,
        );
    }
}

/// One step of growth keeps the tables apart from each other: the new
/// table is reached from the new link alone, and leads nowhere yet.
proof fn lemma_grown_links(m: Map<u64, Seq<u64>>, free: Seq<u64>, table: u64, index: int, root: u64)
    requires
        tables_sized(m),
        frames_usable(free),
        free_apart(m, free),
        links_apart(m, free),
        no_link_to(m, free, root),
        !free.contains(table),
        !free.contains(root),
        free.len() > 0,
        0 <= index < 512,
        !pte_valid(entry_at(m, table, index)),
    ensures
        ({
            let fresh = free.last();
            let grown = with_entry(with_cleared(m, fresh), table, index, pte_encode(fresh, 1));
            let rest = free.drop_last();
            &&& links_apart(grown, rest)
            &&& no_link_to(grown, rest, root)
            &&& forall|i: int| 0 <= i < 512 ==> !pte_valid(#[trigger] entry_at(grown, fresh, i))
        }),
{
    let fresh = free.last();
    let cleared = with_cleared(m, fresh);
    let grown = with_entry(cleared, table, index, pte_encode(fresh, 1));
    let rest = free.drop_last();
    lemma_grown(m, free, table, index);
    lemma_drop_last(free);
    lemma_with_cleared(m, fresh);
    lemma_with_entry(cleared, table, index, pte_encode(fresh, 1));
    assert forall|i: int| 0 <= i < 512 implies !pte_valid(#[trigger] entry_at(grown, fresh, i)) by {
        lemma_rewrite_flags(entry_at(m, fresh, i), 0);
        assert(entry_at(grown, fresh, i) == entry_at(cleared, fresh, i));
    }
    // where each link of the grown memory comes from
    assert forall|f: u64, i: int|
        0 <= i < 512 && !rest.contains(f) && pte_link(#[trigger] entry_at(grown, f, i)) implies (f
        == table && i == index && pte_addr(entry_at(grown, f, i)) == fresh) || (!free.contains(f)
        && entry_at(grown, f, i) == entry_at(m, f, i) && !free.contains(
        pte_addr(entry_at(m, f, i)),
    )) by {
        if f == table && i == index {
        } else if f == fresh {
            assert(!pte_valid(entry_at(grown, fresh, i)));
        } else {
            assert(entry_at(grown, f, i) == entry_at(m, f, i));
        }
    }
    assert forall|f: u64, i: int, g: u64, j: int|
        0 <= i < 512 && 0 <= j < 512 && !rest.contains(f) && !rest.contains(g) && pte_link(
            #[trigger] entry_at(grown, f, i),
        ) && pte_link(#[trigger] entry_at(grown, g, j)) && pte_addr(entry_at(grown, f, i))
            == pte_addr(entry_at(grown, g, j)) implies f == g && i == j by {
        if !(f == table && i == index) && !(g == table && j == index) {
            assert(entry_at(m, f, i) == entry_at(grown, f, i));
            assert(entry_at(m, g, j) == entry_at(grown, g, j));
        }
    }
    assert forall|f: u64, i: int|
        0 <= i < 512 && !rest.contains(f) && pte_link(#[trigger] entry_at(grown, f, i)) implies pte_addr(
        entry_at(grown, f, i),
    ) != root by {
        if !(f == table && i == index) {
            assert(entry_at(m, f, i) == entry_at(grown, f, i));
        }
    }
}

/// The case of a table at level 1: see `lemma_other_pages_kept`.
proof fn lemma_others_kept_inner(
    m: Map<u64, Seq<u64>>,
    free: Seq<u64>,
    table: u64,
    page: u64,
    frame: u64,
    flags: u64,
    target: int,
    va: u64,
)
    requires
        tables_sized(m),
        frames_usable(free),
        free_apart(m, free),
        links_apart(m, free),
        !free.contains(table),
        forall|i: int|
            0 <= i < 512 && pte_link(#[trigger] entry_at(m, table, i)) ==> pte_addr(
                entry_at(m, table, i),
            ) != table,
        0 <= target <= 1,
        !same_page(va, page, target, 1),
    ensures
        walk(map_from(m, free, table, page, frame, flags, target, 1).mem, table, va, 1) == walk(
            m,
            table,
            va,
            1,
        ),
{
    reveal_with_fuel(map_from, 3);
    reveal_with_fuel(walk, 3);
    reveal_with_fuel(path_slot, 3);
    let ip = vpn(page, 1);
    let iv = vpn(va, 1);
    let ip0 = vpn(page, 0);
    let iv0 = vpn(va, 0);
    let e_p = entry_at(m, table, ip);
    lemma_vpn_bound(page, 1);
    lemma_vpn_bound(va, 1);
    lemma_vpn_bound(page, 0);
    lemma_vpn_bound(va, 0);
    if iv != ip {
        let e = entry_at(m, table, iv);
        lemma_only_path_slots_change(m, free, table, page, frame, flags, target, 1, table, iv);
        if pte_link(e) {
            let c = pte_addr(e);
            assert(!free.contains(c));
            lemma_only_path_slots_change(m, free, table, page, frame, flags, target, 1, c, iv0);
        }
    } else {
        assert(target == 0 && iv0 != ip0) by {
            if target == 1 || iv0 == ip0 {
                assert(same_page(va, page, target, 1));
            }
        }
        if pte_valid(e_p) {
            if !pte_leaf(e_p) {
                let c = pte_addr(e_p);
                lemma_with_entry(m, c, ip0, pte_encode(frame, flags));
            }
        } else if free.len() > 0 {
            let fresh = free.last();
            let cleared = with_cleared(m, fresh);
            let grown = with_entry(cleared, table, ip, pte_encode(fresh, 1));
            lemma_grown(m, free, table, ip);
            lemma_with_cleared(m, fresh);
            lemma_with_entry(cleared, table, ip, pte_encode(fresh, 1));
            lemma_rewrite_flags(entry_at(m, fresh, ip0), 0);
            lemma_rewrite_flags(entry_at(m, fresh, iv0), 0);
            assert(!pte_valid(entry_at(grown, fresh, ip0)));
            assert(!pte_valid(entry_at(grown, fresh, iv0)));
            lemma_with_entry(grown, fresh, ip0, pte_encode(frame, flags));
        }
    }
}

/// The case of the root table: see `lemma_other_pages_kept`.
proof fn lemma_others_kept_outer(
    m: Map<u64, Seq<u64>>,
    free: Seq<u64>,
    root: u64,
    page: u64,
    frame: u64,
    flags: u64,
    target: int,
    va: u64,
)
    requires
        tables_sized(m),
        frames_usable(free),
        free_apart(m, free),
        links_apart(m, free),
        no_link_to(m, free, root),
        !free.contains(root),
        0 <= target <= 2,
        !same_page(va, page, target, 2),
    ensures
        walk(map_from(m, free, root, page, frame, flags, target, 2).mem, root, va, 2) == walk(
            m,
            root,
            va,
            2,
        ),
{
    reveal_with_fuel(path_slot, 4);
    reveal_with_fuel(walk, 4);
    let ip = vpn(page, 2);
    let iv = vpn(va, 2);
    let e_p = entry_at(m, root, ip);
    lemma_vpn_bound(page, 2);
    lemma_vpn_bound(va, 2);
    lemma_vpn_bound(page, 1);
    lemma_vpn_bound(va, 1);
    lemma_vpn_bound(page, 0);
    lemma_vpn_bound(va, 0);
    if iv != ip {
        let e = entry_at(m, root, iv);
        if pte_link(e_p) {
            assert(!free.contains(pte_addr(e_p)));
        }
        lemma_only_path_slots_change(m, free, root, page, frame, flags, target, 2, root, iv);
        if pte_link(e) {
            let c = pte_addr(e);
            let e1 = entry_at(m, c, vpn(va, 1));
            assert(!free.contains(c));
            lemma_only_path_slots_change(m, free, root, page, frame, flags, target, 2, c, vpn(va, 1));
            if pte_link(e1) {
                let c2 = pte_addr(e1);
                assert(!free.contains(c2));
                lemma_only_path_slots_change(
                    m,
                    free,
                    root,
                    page,
                    frame,
                    flags,
                    target,
                    2,
                    c2,
                    vpn(va, 0),
                );
            }
        }
    } else {
        assert(target <= 1 && !same_page(va, page, target, 1)) by {
            if target == 2 || same_page(va, page, target, 1) {
                assert(same_page(va, page, target, 2));
            }
        }
        if pte_valid(e_p) {
            if !pte_leaf(e_p) {
                let c = pte_addr(e_p);
                assert(!free.contains(c));
                lemma_others_kept_inner(m, free, c, page, frame, flags, target, va);
                lemma_valid_entries_stay(m, free, c, page, frame, flags, target, 1, root, ip);
            }
        } else if free.len() > 0 {
            let fresh = free.last();
            let grown = with_entry(with_cleared(m, fresh), root, ip, pte_encode(fresh, 1));
            lemma_grown(m, free, root, ip);
            lemma_grown_links(m, free, root, ip, root);
            lemma_others_kept_inner(grown, free.drop_last(), fresh, page, frame, flags, target, va);
            lemma_valid_entries_stay(
                grown,
                free.drop_last(),
                fresh,
                page,
                frame,
                flags,
                target,
                1,
                root,
                ip,
            );
            assert(!pte_valid(entry_at(grown, fresh, vpn(va, 1))));
        }
    }
}

/// A mapping leaves every other page alone: under tables that form a tree,
/// an address outside the page translates after the call, whether it
/// succeeded or not, exactly as it did before.
pub proof fn lemma_other_pages_kept(
    m: Map<u64, Seq<u64>>,
    free: Seq<u64>,
    root: u64,
    page: u64,
    frame: u64,
    flags: u64,
    level: int,
    va: u64,
)
    requires
        tables_sized(m),
        frames_usable(free),
        free_apart(m, free),
        links_apart(m, free),
        no_link_to(m, free, root),
        !free.contains(root),
        0 <= level <= 2,
        !same_page(va, page, level, 2),
    ensures
        translation(map_page(m, free, root, page, frame, flags, level).mem, root, va)
            == translation(m, root, va),
{
    lemma_others_kept_outer(m, free, root, page, frame, flags, level, va);
}

/// The mapper keeps the tables a tree: where no table was reached from two
/// places and none led to the root before a mapping of a leaf, it is so
/// after it, whether it succeeded or not.
pub proof fn lemma_map_keeps_tree(
    m: Map<u64, Seq<u64>>,
    free: Seq<u64>,
    table: u64,
    page: u64,
    frame: u64,
    flags: u64,
    target: int,
    level: int,
    root: u64,
)
    requires
        tables_sized(m),
        frames_usable(free),
        free_apart(m, free),
        links_apart(m, free),
        no_link_to(m, free, root),
        !free.contains(table),
        !free.contains(root),
        page_aligned(frame),
        flags <= 0xff,
        flags_leaf(flags) || !flags_valid(flags),
    ensures
        links_apart(
            map_from(m, free, table, page, frame, flags, target, level).mem,
            map_from(m, free, table, page, frame, flags, target, level).free,
        ),
        no_link_to(
            map_from(m, free, table, page, frame, flags, target, level).mem,
            map_from(m, free, table, page, frame, flags, target, level).free,
            root,
        ),
    decreases level,
{
    let index = vpn(page, level);
    let e = entry_at(m, table, index);
    lemma_vpn_bound(page, level);
    if level <= target || level <= 0 {
        if !pte_valid(e) {
            let word = pte_encode(frame, flags);
            let after = with_entry(m, table, index, word);
            lemma_with_entry(m, table, index, word);
            lemma_encode_decode(frame, flags);
            assert forall|f: u64, i: int|
                0 <= i < 512 && pte_link(#[trigger] entry_at(after, f, i)) implies entry_at(
                after,
                f,
                i,
            ) == entry_at(m, f, i) by {}
        }
    } else if pte_valid(e) {
        if !pte_leaf(e) {
            lemma_map_keeps_tree(m, free, pte_addr(e), page, frame, flags, target, level - 1, root);
        }
    } else if free.len() > 0 {
        let fresh = free.last();
        let grown = with_entry(with_cleared(m, fresh), table, index, pte_encode(fresh, 1));
        lemma_grown(m, free, table, index);
        lemma_grown_links(m, free, table, index, root);
        lemma_drop_last(free);
        lemma_map_keeps_tree(grown, free.drop_last(), fresh, page, frame, flags, target, level - 1, root);
    }
}

/// The tables that boot builds in memory that held nothing are a tree with
/// no frame free: what the other lemmas ask of memory holds of them.
pub proof fn lemma_boot_tables_are_a_tree(root: u64)
    ensures
        tables_sized(boot_tables(Map::empty(), root)),
        free_apart(boot_tables(Map::empty(), root), Seq::empty()),
        links_apart(boot_tables(Map::empty(), root), Seq::empty()),
        no_link_to(boot_tables(Map::empty(), root), Seq::empty(), root),
        frames_usable(Seq::empty()),
        !Seq::<u64>::empty().contains(root),
{
    let none = Map::<u64, Seq<u64>>::empty();
    let cleared = with_cleared(none, root);
    let ram = with_entry(cleared, root, 2, pte_encode(RAM_BASE, 0xf));
    let booted = boot_tables(none, root);
    lemma_with_cleared(none, root);
    lemma_with_entry(cleared, root, 2, pte_encode(RAM_BASE, 0xf));
    lemma_with_entry(ram, root, 0, pte_encode(DEVICE_BASE, 0x7));
    assert(pte_leaf(pte_encode(RAM_BASE, 0xf)) && pte_leaf(pte_encode(DEVICE_BASE, 0x7)))
        by (bit_vector);
    lemma_rewrite_flags(0, 0);
    assert forall|f: u64, i: int| 0 <= i < 512 implies !pte_link(#[trigger] entry_at(booted, f, i)) by {
        assert(entry_at(none, f, i) == 0);
        assert(entry_at(cleared, f, i) == if f == root {
            0u64 & FRAME_MASK
        } else {
            0u64
        });
    }
}

/// Giving a frame to the allocator keeps the tables a tree with the free
/// frames apart, where the frame is not the root, was not free already, and
/// no table that is in use leads to it.
pub proof fn lemma_free_frame_keeps_tree(m: Map<u64, Seq<u64>>, free: Seq<u64>, root: u64, frame: u64)
    requires
        frames_usable(free),
        free_apart(m, free),
        links_apart(m, free),
        no_link_to(m, free, root),
        !free.contains(root),
        !free.contains(frame),
        frame != root,
        page_aligned(frame),
        frame_in_range(frame),
        no_link_to(m, free, frame),
    ensures
        frames_usable(free.push(frame)),
        free_apart(m, free.push(frame)),
        links_apart(m, free.push(frame)),
        no_link_to(m, free.push(frame), root),
        !free.push(frame).contains(root),
{
    let more = free.push(frame);
    assert forall|x: u64| more.contains(x) <==> free.contains(x) || x == frame by {
        if more.contains(x) {
            let k = choose|k: int| 0 <= k < more.len() && more[k] == x;
            if k < free.len() {
                assert(free[k] == x);
            }
        }
        if free.contains(x) {
            let k = choose|k: int| 0 <= k < free.len() && free[k] == x;
            assert(more[k] == x);
        }
        assert(more[free.len() as int] == frame);
    }
    assert forall|a: int, b: int| 0 <= a < more.len() && 0 <= b < more.len() && a != b implies more[a]
        != more[b] by {
        if a < free.len() && b < free.len() {
            assert(free[a] != free[b]);
        } else if a < free.len() {
            assert(free.contains(free[a]));
        } else if b < free.len() {
            assert(free.contains(free[b]));
        }
    }
}

/// A mapping that fails leaves the page as it was: an address of the page
/// translates after the call as it did before, also where tables were
/// built on the way before the frames ran out.
pub proof fn lemma_failed_mapping_keeps_page(
    m: Map<u64, Seq<u64>>,
    free: Seq<u64>,
    table: u64,
    page: u64,
    frame: u64,
    flags: u64,
    target: int,
    level: int,
    va: u64,
)
    requires
        tables_sized(m),
        frames_usable(free),
        free_apart(m, free),
        !free.contains(table),
        0 <= target <= level <= 2,
        same_page(va, page, target, level),
        map_from(m, free, table, page, frame, flags, target, level).result is Err,
    ensures
        walk(map_from(m, free, table, page, frame, flags, target, level).mem, table, va, level)
            == walk(m, table, va, level),
    decreases level,
{
    let index = vpn(page, level);
    let e = entry_at(m, table, index);
    lemma_vpn_bound(page, level);
    assert(vpn(va, level) == index);
    if level > target {
        lemma_vpn_bound(page, level - 1);
        assert(vpn(va, level - 1) == vpn(page, level - 1));
        assert(same_page(va, page, target, level - 1));
        if pte_valid(e) {
            if !pte_leaf(e) {
                let next = pte_addr(e);
                lemma_failed_mapping_keeps_page(m, free, next, page, frame, flags, target, level - 1, va);
                lemma_valid_entries_stay(m, free, next, page, frame, flags, target, level - 1, table, index);
            }
        } else if free.len() > 0 {
            let fresh = free.last();
            let grown = with_entry(with_cleared(m, fresh), table, index, pte_encode(fresh, 1));
            lemma_grown(m, free, table, index);
            lemma_with_cleared(m, fresh);
            lemma_with_entry(with_cleared(m, fresh), table, index, pte_encode(fresh, 1));
            lemma_rewrite_flags(entry_at(m, fresh, vpn(page, level - 1)), 0);
            assert(!pte_valid(entry_at(grown, fresh, vpn(va, level - 1))));
            lemma_failed_mapping_keeps_page(
                grown,
                free.drop_last(),
                fresh,
                page,
                frame,
                flags,
                target,
                level - 1,
                va,
            );
            lemma_valid_entries_stay(
                grown,
                free.drop_last(),
                fresh,
                page,
                frame,
                flags,
                target,
                level - 1,
                table,
                index,
            );
        }
    }
}

/// A mapping that fails changes no translation: under tables that form a
/// tree, every address translates after the call as it did before.
pub proof fn lemma_failed_mapping_changes_no_translation(
    m: Map<u64, Seq<u64>>,
    free: Seq<u64>,
    root: u64,
    page: u64,
    frame: u64,
    flags: u64,
    level: int,
    va: u64,
)
    requires
        tables_sized(m),
        frames_usable(free),
        free_apart(m, free),
        links_apart(m, free),
        no_link_to(m, free, root),
        !free.contains(root),
        0 <= level <= 2,
        map_page(m, free, root, page, frame, flags, level).result is Err,
    ensures
        translation(map_page(m, free, root, page, frame, flags, level).mem, root, va)
            == translation(m, root, va),
{
    if same_page(va, page, level, 2) {
        lemma_failed_mapping_keeps_page(m, free, root, page, frame, flags, level, 2, va);
    } else {
        lemma_other_pages_kept(m, free, root, page, frame, flags, level, va);
    }
}

} // verus!
