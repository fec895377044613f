//! The filters the source offers for browsing.
//!
//! The `kind` filter picks one of the three browse surfaces (`all`: the
//! paginated catalogue, `latest`: `/update`, `ranking`: `/ranking`); the
//! category, status and sort filters only apply to the catalogue.
use vstd::prelude::*;

use crate::text;

verus! {

/// A filter offered to the app.
pub enum FilterSpec {
    /// A single-choice filter: its options' labels and, when they differ
    /// from the labels, the ids the app reports back.
    Select {
        id: String,
        title: String,
        options: Vec<String>,
        ids: Option<Vec<String>>,
        default: Option<String>,
    },
    /// A sort order; the app reports the chosen option's index.
    Sort { id: String, title: String, can_ascend: bool, options: Vec<String> },
}

pub enum FilterSpecView {
    Select {
        id: Seq<char>,
        title: Seq<char>,
        options: Seq<Seq<char>>,
        ids: Option<Seq<Seq<char>>>,
        default: Option<Seq<char>>,
    },
    Sort { id: Seq<char>, title: Seq<char>, can_ascend: bool, options: Seq<Seq<char>> },
}

impl View for FilterSpec {
    type V = FilterSpecView;

    open spec fn view(&self) -> FilterSpecView {
        match self {
            FilterSpec::Select { id, title, options, ids, default } => FilterSpecView::Select {
                id: id@,
                title: title@,
                options: text::views(options@),
                ids: match ids {
                    Some(v) => Some(text::views(v@)),
                    None => None,
                },
                default: text::opt_view(*default),
            },
            FilterSpec::Sort { id, title, can_ascend, options } => FilterSpecView::Sort {
                id: id@,
                title: title@,
                can_ascend: *can_ascend,
                options: text::views(options@),
            },
        }
    }
}

pub open spec fn filter_views(v: Seq<FilterSpec>) -> Seq<FilterSpecView> {
    v.map_values(|f: FilterSpec| f@)
}

/// The ids of the browse surfaces, in the order the `kind` filter lists
/// them.
pub open spec fn kind_ids() -> Seq<Seq<char>> {
    seq!["all"@, "latest"@, "ranking"@]
}

pub open spec fn category_options() -> Seq<Seq<char>> {
    seq![
        "全部"@,
        "正妹"@,
        "恋爱"@,
        "出版漫画"@,
        "肉慶"@,
        "浪漫"@,
        "大尺度"@,
        "巨乳"@,
        "有夫之婦"@,
        "女大生"@,
        "狗血劇"@,
        "同居"@,
        "好友"@,
        "調教"@,
        "动作"@,
        "後宮"@,
        "不倫"@,
        "3D"@,
        "校園"@,
        "耽美"@,
        "日漫"@,
    ]
}

/// The filters, in the order the app shows them.
pub open spec fn spec_filters() -> Seq<FilterSpecView> {
    seq![
        FilterSpecView::Select {
            id: "kind"@,
            title: "类型"@,
            options: seq!["全部分类"@, "最新更新"@, "排行榜"@],
            ids: Some(kind_ids()),
            default: Some("all"@),
        },
        FilterSpecView::Select {
            id: "category"@,
            title: "分类"@,
            options: category_options(),
            ids: None,
            default: None,
        },
        FilterSpecView::Select {
            id: "status"@,
            title: "状态"@,
            options: seq!["全部"@, "连载中"@, "已完绝"@],
            ids: None,
            default: None,
        },
        FilterSpecView::Sort {
            id: "sort"@,
            title: "排序"@,
            can_ascend: false,
            options: seq!["按时间"@, "按热度"@],
        },
    ]
}

fn string_list(items: &[&str]) -> (r: Vec<String>)
    ensures
        text::views(r@) == items@.map_values(|s: &str| s@),
{
    let mut r: Vec<String> = Vec::new();
    let mut i: usize = 0;
    while i < items.len()
        invariant
            i <= items@.len(),
            text::views(r@) == items@.subrange(0, i as int).map_values(|s: &str| s@),
        decreases items.len() - i,
    {
        let ghost before = text::views(r@);
        r.push(String::from_str(items[i]));
        assert(text::views(r@) =~= before.push(items@[i as int]@));
        assert(items@.subrange(0, i + 1).map_values(|s: &str| s@) =~= items@.subrange(
            0,
            i as int,
        ).map_values(|s: &str| s@).push(items@[i as int]@));
        i += 1;
    }
    assert(items@.subrange(0, items@.len() as int) =~= items@);
    r
}

/// The filters the source offers.
pub fn dynamic_filters() -> (r: Vec<FilterSpec>)
    ensures
        filter_views(r@) == spec_filters(),
        r@.len() == 4,
        r@[0]@ == (FilterSpecView::Select {
            id: "kind"@,
            title: "类型"@,
            options: seq!["全部分类"@, "最新更新"@, "排行榜"@],
            ids: Some(seq!["all"@, "latest"@, "ranking"@]),
            default: Some("all"@),
        }),
        r@[3]@ == (FilterSpecView::Sort {
            id: "sort"@,
            title: "排序"@,
            can_ascend: false,
            options: seq!["按时间"@, "按热度"@],
        }),
        r@[2]@ == (FilterSpecView::Select {
            id: "status"@,
            title: "状态"@,
            options: seq!["全部"@, "连载中"@, "已完绝"@],
            ids: None,
            default: None,
        }),
{
    let kind_labels = ["全部分类", "最新更新", "排行榜"];
    let kinds = ["all", "latest", "ranking"];
    let categories = [
        "全部",
        "正妹",
        "恋爱",
        "出版漫画",
        "肉慶",
        "浪漫",
        "大尺度",
        "巨乳",
        "有夫之婦",
        "女大生",
        "狗血劇",
        "同居",
        "好友",
        "調教",
        "动作",
        "後宮",
        "不倫",
        "3D",
        "校園",
        "耽美",
        "日漫",
    ];
    let statuses = ["全部", "连载中", "已完绝"];
    let sorts = ["按时间", "按热度"];
    let kind = FilterSpec::Select {
        id: String::from_str("kind"),
        title: String::from_str("类型"),
        options: string_list(&kind_labels),
        ids: Some(string_list(&kinds)),
        default: Some(String::from_str("all")),
    };
    let category = FilterSpec::Select {
        id: String::from_str("category"),
        title: String::from_str("分类"),
        options: string_list(&categories),
        ids: None,
        default: None,
    };
    let status = FilterSpec::Select {
        id: String::from_str("status"),
        title: String::from_str("状态"),
        options: string_list(&statuses),
        ids: None,
        default: None,
    };
    let sort = FilterSpec::Sort {
        id: String::from_str("sort"),
        title: String::from_str("排序"),
        can_ascend: false,
        options: string_list(&sorts),
    };
    proof {
        assert(kind_labels@.map_values(|s: &str| s@) =~= seq!["全部分类"@, "最新更新"@, "排行榜"@]);
        assert(kinds@.map_values(|s: &str| s@) =~= kind_ids());
        assert(categories@.map_values(|s: &str| s@) =~= category_options());
        assert(statuses@.map_values(|s: &str| s@) =~= seq!["全部"@, "连载中"@, "已完绝"@]);
        assert(sorts@.map_values(|s: &str| s@) =~= seq!["按时间"@, "按热度"@]);
    }
    let mut r: Vec<FilterSpec> = Vec::new();
    r.push(kind);
    r.push(category);
    r.push(status);
    r.push(sort);
    assert(filter_views(r@) =~= spec_filters());
    assert(r@[0]@ == filter_views(r@)[0]);
    assert(r@[2]@ == filter_views(r@)[2]);
    assert(r@[3]@ == filter_views(r@)[3]);
    r
}

/// The option labels of a filter.
pub open spec fn filter_options(f: FilterSpecView) -> Seq<Seq<char>> {
    match f {
        FilterSpecView::Select { options, .. } => options,
        FilterSpecView::Sort { options, .. } => options,
    }
}

/// The filter table the source offers: the `kind` select (全部分类, 最新更新,
/// 排行榜 reporting `all`, `latest`, `ranking`; `all` by default), the
/// `category` select of the site's twenty-one categories, the `status`
/// select whose labels (全部, 连载中, 已完绝) are the values the catalogue's
/// `/st/{status}` path takes, and the `sort` order (按时间, 按热度), which
/// cannot ascend.
pub proof fn law_filter_table()
    ensures
        spec_filters().len() == 4,
        spec_filters()[0] == (FilterSpecView::Select {
            id: "kind"@,
            title: "类型"@,
            options: seq!["全部分类"@, "最新更新"@, "排行榜"@],
            ids: Some(seq!["all"@, "latest"@, "ranking"@]),
            default: Some("all"@),
        }),
        spec_filters()[1] == (FilterSpecView::Select {
            id: "category"@,
            title: "分类"@,
            options: seq![
                "全部"@,
                "正妹"@,
                "恋爱"@,
                "出版漫画"@,
                "肉慶"@,
                "浪漫"@,
                "大尺度"@,
                "巨乳"@,
                "有夫之婦"@,
                "女大生"@,
                "狗血劇"@,
                "同居"@,
                "好友"@,
                "調教"@,
                "动作"@,
                "後宮"@,
                "不倫"@,
                "3D"@,
                "校園"@,
                "耽美"@,
                "日漫"@,
            ],
            ids: None,
            default: None,
        }),
        spec_filters()[2] == (FilterSpecView::Select {
            id: "status"@,
            title: "状态"@,
            options: seq!["全部"@, "连载中"@, "已完绝"@],
            ids: None,
            default: None,
        }),
        spec_filters()[3] == (FilterSpecView::Sort {
            id: "sort"@,
            title: "排序"@,
            can_ascend: false,
            options: seq!["按时间"@, "按热度"@],
        }),
{
}

} // verus!
