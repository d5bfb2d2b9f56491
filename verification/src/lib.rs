//! Test collection and run bookkeeping for a pytest-compatible runner:
//! which Python definitions are tests, their node ids, `-k`/`-m`
//! selection, configuration files, coverage, and reports.
pub mod ast;
pub mod cli;
pub mod config;
pub mod conftest;
pub mod coverage;
pub mod discovery;
pub mod executor;
pub mod fixtures;
pub mod junit;
pub mod markers;
pub mod parametrize;
pub mod parser;
pub mod paths;
pub mod precedence;
pub mod reporting;
pub mod results;
pub mod selection;
pub mod source;
pub mod text;

use vstd::prelude::*;
use crate::config::PytestConfig;
use crate::conftest::ConftestMap;
use crate::parametrize::{expand_parametrize, expanded_ids};
use crate::parser::{TestItem, TestItemView, item_views};
use crate::selection::{filter_items, k_selected, m_selected};
use crate::text::strs;

verus! {

/// The collected tests and the conftest fixtures by directory.
pub struct CollectionResult {
    pub items: Vec<TestItem>,
    pub conftest_map: ConftestMap,
}

/// The items one collected definition stands for: itself, or one item per
/// id its parametrize decorators expand to.
pub open spec fn item_expansion(item: TestItemView) -> Seq<TestItemView> {
    if item.parametrize.len() == 0 {
        seq![item]
    } else {
        expanded_ids(item.node_id, item.parametrize).map_values(
            |id: Seq<char>| TestItemView { node_id: id, ..item },
        )
    }
}

pub open spec fn expanded_items(items: Seq<TestItemView>) -> Seq<TestItemView>
    decreases items.len(),
{
    if items.len() == 0 {
        Seq::empty()
    } else {
        expanded_items(items.drop_last()) + item_expansion(items.last())
    }
}

/// Replaces every parametrized definition by one item per expanded node id.
pub fn expand_items(raw_items: Vec<TestItem>) -> (r: Vec<TestItem>)
    ensures
        item_views(r@) == expanded_items(item_views(raw_items@)),
{
    let ghost all = item_views(raw_items@);
    let mut items: Vec<TestItem> = Vec::new();
    for item in it: raw_items
        invariant
            all == item_views(it.seq()),
            item_views(items@) == expanded_items(all.take(it.index() as int)),
    {
        let ghost before = item_views(items@);
        let ghost iv = item@;
        proof {
            assert(all.take(it.index() + 1).drop_last() =~= all.take(it.index() as int));
            assert(all[it.index() as int] == iv);
        }
        if item.parametrize.len() == 0 {
            items.push(item);
            assert(item_views(items@) =~= before + seq![iv]);
        } else {
            let ids = expand_parametrize(item.node_id.as_str(), item.parametrize.as_slice());
            let ghost idv = strs(ids@);
            let mut j: usize = 0;
            while j < ids.len()
                invariant
                    j <= ids@.len(),
                    idv == strs(ids@),
                    iv == item@,
                    iv.parametrize.len() > 0,
                    idv == expanded_ids(iv.node_id, iv.parametrize),
                    item_views(items@) == before + item_expansion(iv).take(j as int),
                decreases ids@.len() - j,
            {
                let expanded = TestItem {
                    node_id: ids[j].clone(),
                    parametrize: crate::parametrize::copy_params(&item.parametrize),
                    markers: crate::markers::copy_markers(&item.markers),
                    is_method: item.is_method,
                    class_name: crate::parser::copy_opt_string(&item.class_name),
                    function_name: item.function_name.clone(),
                };
                let ghost ev = expanded@;
                let ghost prev = item_views(items@);
                items.push(expanded);
                proof {
                    assert(idv[j as int] == ids@[j as int]@);
                    assert(ev == item_expansion(iv)[j as int]);
                    assert(item_views(items@) =~= prev.push(ev));
                    assert(item_expansion(iv).take(j + 1) =~= item_expansion(iv).take(
                        j as int,
                    ).push(ev));
                }
                j += 1;
            }
            assert(item_expansion(iv).take(ids@.len() as int) =~= item_expansion(iv));
        }
    }
    proof {
        assert(all.take(all.len() as int) =~= all);
    }
    items
}

/// Finishes collection: expands parametrized definitions, then narrows the
/// items by the `-k` and `-m` expressions.
pub fn finish_collection(
    raw_items: Vec<TestItem>,
    conftest_map: ConftestMap,
    k_expr: Option<&str>,
    m_expr: Option<&str>,
    config: &PytestConfig,
) -> (r: CollectionResult)
    ensures
        item_views(r.items@) == m_selected(
            k_selected(expanded_items(item_views(raw_items@)), k_expr),
            m_expr,
        ),
        r.conftest_map == conftest_map,
{
    let items = expand_items(raw_items);
    let items = filter_items(items, k_expr, m_expr, config);
    CollectionResult { items, conftest_map }
}

} // verus!
