//! The layout engine: the desired height and width of each element,
//! computed after resolving its kind against the data row in scope.
//!
//! Containers sum along their primary axis and take the maximum across
//! it; text uses a fixed-width-line approximation for height and the
//! measured display width for width; `Spacer` and `Nothing` contribute
//! nothing; an unresolved `Variable` is measured as text showing its
//! unresolved marker. `Grid` is unimplemented and fails explicitly.

use vstd::prelude::*;

use crate::dataset::{DatasetData, DatasetStore};
use crate::element::{
    lemma_view_children, opt_row_v, spec_content, spec_resolve_kind, ElemModel, Element,
    ElementKind, KindModel, Row,
};
use crate::navigate::{count_expanded, entry_at, expanded_count, expanded_entry, NavError};

verus! {

broadcast use lemma_view_children;

/// The displayed column width of a string. Its value is what the
/// `unicode-width` crate computes: a function of the characters alone.
pub uninterp spec fn display_width_of(s: Seq<char>) -> nat;

/// Relies on unicode_width::UnicodeWidthStr::width: the displayed width
/// of a string in terminal columns, a function of its characters alone;
/// the empty string has width 0.
#[verifier::external_body]
fn display_width(s: &str) -> (r: usize)
    ensures
        r as nat == display_width_of(s@),
        s@.len() == 0 ==> r == 0,
{
    unicode_width::UnicodeWidthStr::width(s)
}

/// Extents are reported in terminal cells, clamped to what a `u16` holds.
pub open spec fn clamp16(h: int) -> int {
    if h > 0xffff {
        0xffff
    } else {
        h
    }
}

/// The desired height of an element under the row in scope: none when
/// layout meets a `Grid`.
pub open spec fn spec_height(e: ElemModel, store: DatasetStore, datum: Option<Row>) -> Option<int>
    decreases e, expanded_count(e, store) + 1, 2int,
{
    match spec_resolve_kind(e.kind, datum) {
        KindModel::Nothing => Some(0),
        KindModel::Spacer => Some(0),
        KindModel::Grid(_, _) => None,
        KindModel::Rows => heights_sum(e, store, datum, 0),
        KindModel::Columns => heights_max(e, store, datum, 0),
        KindModel::TextEntry => Some(3),
        KindModel::Button => Some(3),
        _ => Some((spec_content(e, datum).len() as int + 79) / 80 + 1),
    }
}

/// The summed heights of the expanded children from position `k` on.
pub open spec fn heights_sum(e: ElemModel, store: DatasetStore, datum: Option<Row>, k: int) -> Option<
    int,
>
    decreases e, expanded_count(e, store) - k, 1int,
{
    if k < 0 || k >= expanded_count(e, store) {
        Some(0)
    } else {
        let (ri, child, d) = expanded_entry(e, store, datum, k);
        match spec_height(child, store, d) {
            None => None,
            Some(h) => match heights_sum(e, store, datum, k + 1) {
                None => None,
                Some(rest) => Some(h + rest),
            },
        }
    }
}

/// The greatest height among the expanded children from position `k` on.
pub open spec fn heights_max(e: ElemModel, store: DatasetStore, datum: Option<Row>, k: int) -> Option<
    int,
>
    decreases e, expanded_count(e, store) - k, 1int,
{
    if k < 0 || k >= expanded_count(e, store) {
        Some(0)
    } else {
        let (ri, child, d) = expanded_entry(e, store, datum, k);
        match spec_height(child, store, d) {
            None => None,
            Some(h) => match heights_max(e, store, datum, k + 1) {
                None => None,
                Some(rest) => Some(if h > rest {
                    h
                } else {
                    rest
                }),
            },
        }
    }
}

/// The desired width of an element under the row in scope: none when
/// layout meets a `Grid`.
pub open spec fn spec_width(e: ElemModel, store: DatasetStore, datum: Option<Row>) -> Option<int>
    decreases e, expanded_count(e, store) + 1, 2int,
{
    match spec_resolve_kind(e.kind, datum) {
        KindModel::Nothing => Some(0),
        KindModel::Spacer => Some(0),
        KindModel::Grid(_, _) => None,
        KindModel::Rows => widths_max(e, store, datum, 0),
        KindModel::Columns => widths_sum(e, store, datum, 0),
        KindModel::TextEntry => Some(35),
        KindModel::Button => Some(spec_content(e, datum).len() as int + 2),
        _ => Some(display_width_of(spec_content(e, datum)) as int),
    }
}

/// The summed widths of the expanded children from position `k` on.
pub open spec fn widths_sum(e: ElemModel, store: DatasetStore, datum: Option<Row>, k: int) -> Option<
    int,
>
    decreases e, expanded_count(e, store) - k, 1int,
{
    if k < 0 || k >= expanded_count(e, store) {
        Some(0)
    } else {
        let (ri, child, d) = expanded_entry(e, store, datum, k);
        match spec_width(child, store, d) {
            None => None,
            Some(w) => match widths_sum(e, store, datum, k + 1) {
                None => None,
                Some(rest) => Some(w + rest),
            },
        }
    }
}

/// The greatest width among the expanded children from position `k` on.
pub open spec fn widths_max(e: ElemModel, store: DatasetStore, datum: Option<Row>, k: int) -> Option<
    int,
>
    decreases e, expanded_count(e, store) - k, 1int,
{
    if k < 0 || k >= expanded_count(e, store) {
        Some(0)
    } else {
        let (ri, child, d) = expanded_entry(e, store, datum, k);
        match spec_width(child, store, d) {
            None => None,
            Some(w) => match widths_max(e, store, datum, k + 1) {
                None => None,
                Some(rest) => Some(if w > rest {
                    w
                } else {
                    rest
                }),
            },
        }
    }
}

proof fn lemma_height_nonneg(e: ElemModel, store: DatasetStore, datum: Option<Row>)
    ensures
        match spec_height(e, store, datum) {
            Some(h) => h >= 0,
            None => true,
        },
    decreases e, expanded_count(e, store) + 1, 2int,
{
    match spec_resolve_kind(e.kind, datum) {
        KindModel::Rows => lemma_heights_sum_nonneg(e, store, datum, 0),
        KindModel::Columns => lemma_heights_max_nonneg(e, store, datum, 0),
        _ => {},
    }
}

proof fn lemma_heights_sum_nonneg(e: ElemModel, store: DatasetStore, datum: Option<Row>, k: int)
    ensures
        match heights_sum(e, store, datum, k) {
            Some(h) => h >= 0,
            None => true,
        },
    decreases e, expanded_count(e, store) - k, 1int,
{
    if k < 0 || k >= expanded_count(e, store) {
    } else {
        let (ri, child, d) = expanded_entry(e, store, datum, k);
        lemma_height_nonneg(child, store, d);
        lemma_heights_sum_nonneg(e, store, datum, k + 1);
    }
}

proof fn lemma_heights_max_nonneg(e: ElemModel, store: DatasetStore, datum: Option<Row>, k: int)
    ensures
        match heights_max(e, store, datum, k) {
            Some(h) => h >= 0,
            None => true,
        },
    decreases e, expanded_count(e, store) - k, 1int,
{
    if k < 0 || k >= expanded_count(e, store) {
    } else {
        let (ri, child, d) = expanded_entry(e, store, datum, k);
        lemma_height_nonneg(child, store, d);
        lemma_heights_max_nonneg(e, store, datum, k + 1);
    }
}

proof fn lemma_width_nonneg(e: ElemModel, store: DatasetStore, datum: Option<Row>)
    ensures
        match spec_width(e, store, datum) {
            Some(w) => w >= 0,
            None => true,
        },
    decreases e, expanded_count(e, store) + 1, 2int,
{
    match spec_resolve_kind(e.kind, datum) {
        KindModel::Rows => lemma_widths_max_nonneg(e, store, datum, 0),
        KindModel::Columns => lemma_widths_sum_nonneg(e, store, datum, 0),
        _ => {},
    }
}

proof fn lemma_widths_sum_nonneg(e: ElemModel, store: DatasetStore, datum: Option<Row>, k: int)
    ensures
        match widths_sum(e, store, datum, k) {
            Some(w) => w >= 0,
            None => true,
        },
    decreases e, expanded_count(e, store) - k, 1int,
{
    if k < 0 || k >= expanded_count(e, store) {
    } else {
        let (ri, child, d) = expanded_entry(e, store, datum, k);
        lemma_width_nonneg(child, store, d);
        lemma_widths_sum_nonneg(e, store, datum, k + 1);
    }
}

proof fn lemma_widths_max_nonneg(e: ElemModel, store: DatasetStore, datum: Option<Row>, k: int)
    ensures
        match widths_max(e, store, datum, k) {
            Some(w) => w >= 0,
            None => true,
        },
    decreases e, expanded_count(e, store) - k, 1int,
{
    if k < 0 || k >= expanded_count(e, store) {
    } else {
        let (ri, child, d) = expanded_entry(e, store, datum, k);
        lemma_width_nonneg(child, store, d);
        lemma_widths_max_nonneg(e, store, datum, k + 1);
    }
}

/// Adds within the clamp.
fn clamped_add(a: u16, b: u16) -> (r: u16)
    ensures
        r as int == clamp16(a as int + b as int),
{
    if a > 0xffff - b {
        0xffff
    } else {
        a + b
    }
}

/// The larger of two extents.
fn max16(a: u16, b: u16) -> (r: u16)
    ensures
        r as int == if a as int > b as int {
            a as int
        } else {
            b as int
        },
{
    if a > b {
        a
    } else {
        b
    }
}

/// The desired height of an element under the row in scope, in terminal
/// cells, clamped to `u16`; fails explicitly on a `Grid`.
pub fn elem_calc_height(
    e: &Element,
    datum: Option<&DatasetData>,
    store: &DatasetStore,
) -> (r: Result<u16, NavError>)
    ensures
        ({
            let sh = spec_height(e@, *store, opt_row_v(datum));
            match r {
                Ok(h) => sh is Some && h as int == clamp16(sh->0),
                Err(_) => sh is None,
            }
        }),
    decreases *e, 1int,
{
    match &e.kind {
        ElementKind::Nothing => Ok(0),
        ElementKind::Spacer => Ok(0),
        ElementKind::Grid(_, _) => Err(NavError::GridUnsupported),
        ElementKind::Rows => {
            let total = count_expanded(e, store);
            let mut acc: u16 = 0;
            let mut k: u128 = 0;
            let ghost d0 = opt_row_v(datum);
            proof {
                lemma_heights_sum_nonneg(e@, *store, d0, 0);
            }
            while k < total
                invariant
                    total as int == expanded_count(e@, *store),
                    0 <= k <= total,
                    heights_sum(e@, *store, d0, 0) is Some <==> heights_sum(
                        e@,
                        *store,
                        d0,
                        k as int,
                    ) is Some,
                    heights_sum(e@, *store, d0, 0) is Some ==> clamp16(
                        heights_sum(e@, *store, d0, 0)->0,
                    ) == clamp16(acc as int + heights_sum(e@, *store, d0, k as int)->0),
                    d0 == opt_row_v(datum),
                    e@.kind is Rows,
                decreases total - k,
            {
                let (ri, child, d) = entry_at(e, store, datum, k);
                proof {
                    lemma_heights_sum_nonneg(e@, *store, d0, k as int + 1);
                    lemma_height_nonneg(expanded_entry(e@, *store, d0, k as int).1, *store,
                        expanded_entry(e@, *store, d0, k as int).2);
                }
                proof {
                    let ci = choose|ci: int|
                        0 <= ci < e.children@.len() && *child == #[trigger] e.children@[ci];
                    assert(decreases_to!(*e => e.children@[ci]));
                }
                match elem_calc_height(child, d, store) {
                    Ok(h) => {
                        acc = clamped_add(acc, h);
                    },
                    Err(err) => {
                        proof {
                            assert(heights_sum(e@, *store, d0, k as int) is None);
                            assert(heights_sum(e@, *store, d0, 0) is None);
                        }
                        return Err(err);
                    },
                }
                k = k + 1;
            }
            Ok(acc)
        },
        ElementKind::Columns => {
            let total = count_expanded(e, store);
            let mut acc: u16 = 0;
            let mut k: u128 = 0;
            let ghost d0 = opt_row_v(datum);
            proof {
                lemma_heights_max_nonneg(e@, *store, d0, 0);
            }
            while k < total
                invariant
                    total as int == expanded_count(e@, *store),
                    0 <= k <= total,
                    heights_max(e@, *store, d0, 0) is Some <==> heights_max(
                        e@,
                        *store,
                        d0,
                        k as int,
                    ) is Some,
                    heights_max(e@, *store, d0, 0) is Some ==> clamp16(
                        heights_max(e@, *store, d0, 0)->0,
                    ) == if acc as int > clamp16(heights_max(e@, *store, d0, k as int)->0) {
                        acc as int
                    } else {
                        clamp16(heights_max(e@, *store, d0, k as int)->0)
                    },
                    d0 == opt_row_v(datum),
                    e@.kind is Columns,
                decreases total - k,
            {
                let (ri, child, d) = entry_at(e, store, datum, k);
                proof {
                    lemma_heights_max_nonneg(e@, *store, d0, k as int + 1);
                    lemma_height_nonneg(expanded_entry(e@, *store, d0, k as int).1, *store,
                        expanded_entry(e@, *store, d0, k as int).2);
                }
                proof {
                    let ci = choose|ci: int|
                        0 <= ci < e.children@.len() && *child == #[trigger] e.children@[ci];
                    assert(decreases_to!(*e => e.children@[ci]));
                }
                match elem_calc_height(child, d, store) {
                    Ok(h) => {
                        acc = max16(acc, h);
                    },
                    Err(err) => {
                        proof {
                            assert(heights_max(e@, *store, d0, k as int) is None);
                            assert(heights_max(e@, *store, d0, 0) is None);
                        }
                        return Err(err);
                    },
                }
                k = k + 1;
            }
            Ok(acc)
        },
        ElementKind::TextEntry => Ok(3),
        ElementKind::Button => Ok(3),
        _ => {
            if e.resolves_to_nothing(datum) {
                return Ok(0);
            }
            let content = e.render_content(datum);
            let n = content.as_str().unicode_len();
            let lines = n / 80 + if n % 80 == 0 {
                0
            } else {
                1
            };
            proof {
                assert(lines == (n + 79) / 80);
            }
            let h = if lines > 0xfffe {
                0xffffusize
            } else {
                lines + 1
            };
            proof {
                assert(h as int == clamp16((content@.len() as int + 79) / 80 + 1));
            }
            Ok(h as u16)
        },
    }
}

/// The desired width of an element under the row in scope, in terminal
/// cells, clamped to `u16`; fails explicitly on a `Grid`.
pub fn elem_calc_width(
    e: &Element,
    datum: Option<&DatasetData>,
    store: &DatasetStore,
) -> (r: Result<u16, NavError>)
    ensures
        ({
            let sw = spec_width(e@, *store, opt_row_v(datum));
            match r {
                Ok(w) => sw is Some && w as int == clamp16(sw->0),
                Err(_) => sw is None,
            }
        }),
    decreases *e, 1int,
{
    match &e.kind {
        ElementKind::Nothing => Ok(0),
        ElementKind::Spacer => Ok(0),
        ElementKind::Grid(_, _) => Err(NavError::GridUnsupported),
        ElementKind::Columns => {
            let total = count_expanded(e, store);
            let mut acc: u16 = 0;
            let mut k: u128 = 0;
            let ghost d0 = opt_row_v(datum);
            proof {
                lemma_widths_sum_nonneg(e@, *store, d0, 0);
            }
            while k < total
                invariant
                    total as int == expanded_count(e@, *store),
                    0 <= k <= total,
                    widths_sum(e@, *store, d0, 0) is Some <==> widths_sum(
                        e@,
                        *store,
                        d0,
                        k as int,
                    ) is Some,
                    widths_sum(e@, *store, d0, 0) is Some ==> clamp16(
                        widths_sum(e@, *store, d0, 0)->0,
                    ) == clamp16(acc as int + widths_sum(e@, *store, d0, k as int)->0),
                    d0 == opt_row_v(datum),
                    e@.kind is Columns,
                decreases total - k,
            {
                let (ri, child, d) = entry_at(e, store, datum, k);
                proof {
                    lemma_widths_sum_nonneg(e@, *store, d0, k as int + 1);
                    lemma_width_nonneg(expanded_entry(e@, *store, d0, k as int).1, *store,
                        expanded_entry(e@, *store, d0, k as int).2);
                }
                proof {
                    let ci = choose|ci: int|
                        0 <= ci < e.children@.len() && *child == #[trigger] e.children@[ci];
                    assert(decreases_to!(*e => e.children@[ci]));
                }
                match elem_calc_width(child, d, store) {
                    Ok(w) => {
                        acc = clamped_add(acc, w);
                    },
                    Err(err) => {
                        proof {
                            assert(widths_sum(e@, *store, d0, k as int) is None);
                            assert(widths_sum(e@, *store, d0, 0) is None);
                        }
                        return Err(err);
                    },
                }
                k = k + 1;
            }
            Ok(acc)
        },
        ElementKind::Rows => {
            let total = count_expanded(e, store);
            let mut acc: u16 = 0;
            let mut k: u128 = 0;
            let ghost d0 = opt_row_v(datum);
            proof {
                lemma_widths_max_nonneg(e@, *store, d0, 0);
            }
            while k < total
                invariant
                    total as int == expanded_count(e@, *store),
                    0 <= k <= total,
                    widths_max(e@, *store, d0, 0) is Some <==> widths_max(
                        e@,
                        *store,
                        d0,
                        k as int,
                    ) is Some,
                    widths_max(e@, *store, d0, 0) is Some ==> clamp16(
                        widths_max(e@, *store, d0, 0)->0,
                    ) == if acc as int > clamp16(widths_max(e@, *store, d0, k as int)->0) {
                        acc as int
                    } else {
                        clamp16(widths_max(e@, *store, d0, k as int)->0)
                    },
                    d0 == opt_row_v(datum),
                    e@.kind is Rows,
                decreases total - k,
            {
                let (ri, child, d) = entry_at(e, store, datum, k);
                proof {
                    lemma_widths_max_nonneg(e@, *store, d0, k as int + 1);
                    lemma_width_nonneg(expanded_entry(e@, *store, d0, k as int).1, *store,
                        expanded_entry(e@, *store, d0, k as int).2);
                }
                proof {
                    let ci = choose|ci: int|
                        0 <= ci < e.children@.len() && *child == #[trigger] e.children@[ci];
                    assert(decreases_to!(*e => e.children@[ci]));
                }
                match elem_calc_width(child, d, store) {
                    Ok(w) => {
                        acc = max16(acc, w);
                    },
                    Err(err) => {
                        proof {
                            assert(widths_max(e@, *store, d0, k as int) is None);
                            assert(widths_max(e@, *store, d0, 0) is None);
                        }
                        return Err(err);
                    },
                }
                k = k + 1;
            }
            Ok(acc)
        },
        ElementKind::TextEntry => Ok(35),
        ElementKind::Button => {
            let content = e.render_content(datum);
            let n = content.as_str().unicode_len();
            let w = if n > 0xfffd {
                0xffffusize
            } else {
                n + 2
            };
            proof {
                assert(w as int == clamp16(content@.len() as int + 2));
            }
            Ok(w as u16)
        },
        _ => {
            if e.resolves_to_nothing(datum) {
                return Ok(0);
            }
            let content = e.render_content(datum);
            let n = display_width(content.as_str());
            let w = if n > 0xffff {
                0xffffusize
            } else {
                n
            };
            Ok(w as u16)
        },
    }
}

} // verus!
