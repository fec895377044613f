//! Home page assembly.
//!
//! The home page is a vertical stack of sections, each introduced by a
//! `text-2xl` title div that matches one of the known titles, and followed
//! by a grid of manga cards. [`home_sections`] is the table of known
//! sections; [`find_title_element`] picks a section's title among the
//! page's title divs; [`parse_home_layout`] assembles the components.
use vstd::prelude::*;

use crate::model;
use crate::model::{component_views, HomeComponent, HomeComponentView, HomeSectionKind};
use crate::roumanwu::listing;
use crate::text;

verus! {

/// A known section: its title aliases, subtitles and layout.
pub struct SectionSpec {
    pub titles: Vec<String>,
    pub subtitles: Vec<String>,
    pub kind: HomeSectionKind,
}

pub struct SectionSpecView {
    pub titles: Seq<Seq<char>>,
    pub subtitles: Seq<Seq<char>>,
    pub kind: HomeSectionKind,
}

impl View for SectionSpec {
    type V = SectionSpecView;

    open spec fn view(&self) -> SectionSpecView {
        SectionSpecView {
            titles: text::views(self.titles@),
            subtitles: text::views(self.subtitles@),
            kind: self.kind,
        }
    }
}

pub open spec fn ranked_list() -> HomeSectionKind {
    HomeSectionKind::MangaList { ranking: true, page_size: 3 }
}

/// The known home sections, in page order.
pub open spec fn spec_home_sections() -> Seq<SectionSpecView> {
    seq![
        SectionSpecView {
            titles: seq!["正熱門"@],
            subtitles: seq!["當下超高人氣作品"@],
            kind: HomeSectionKind::BigScroller,
        },
        SectionSpecView {
            titles: seq!["今日最佳"@],
            subtitles: seq!["今日爆款"@],
            kind: ranked_list(),
        },
        SectionSpecView {
            titles: seq!["最近更新"@],
            subtitles: seq!["每日多次更新"@],
            kind: ranked_list(),
        },
        SectionSpecView {
            titles: seq!["本週熱門"@],
            subtitles: seq!["本週最熱漫畫"@],
            kind: ranked_list(),
        },
        SectionSpecView {
            titles: seq!["已完結"@],
            subtitles: seq!["完結精選"@],
            kind: HomeSectionKind::Scroller,
        },
    ]
}

fn section(title: &str, subtitle: &str, kind: HomeSectionKind) -> (r: SectionSpec)
    ensures
        r@ == (SectionSpecView { titles: seq![title@], subtitles: seq![subtitle@], kind }),
{
    let mut titles: Vec<String> = Vec::new();
    titles.push(String::from_str(title));
    let mut subtitles: Vec<String> = Vec::new();
    subtitles.push(String::from_str(subtitle));
    assert(text::views(titles@) =~= seq![title@]);
    assert(text::views(subtitles@) =~= seq![subtitle@]);
    SectionSpec { titles, subtitles, kind }
}

pub open spec fn spec_views(v: Seq<SectionSpec>) -> Seq<SectionSpecView> {
    v.map_values(|s: SectionSpec| s@)
}

/// The known home sections, in page order.
pub fn home_sections() -> (r: Vec<SectionSpec>)
    ensures
        spec_views(r@) == spec_home_sections(),
        r@.len() == 5,
        r@[0]@.titles == seq!["正熱門"@],
        r@[1]@.titles == seq!["今日最佳"@],
        r@[2]@.titles == seq!["最近更新"@],
        r@[3]@.titles == seq!["本週熱門"@],
        r@[4]@.titles == seq!["已完結"@],
        r@[0]@.subtitles == seq!["當下超高人氣作品"@],
        r@[1]@.subtitles == seq!["今日爆款"@],
        r@[2]@.subtitles == seq!["每日多次更新"@],
        r@[3]@.subtitles == seq!["本週最熱漫畫"@],
        r@[4]@.subtitles == seq!["完結精選"@],
        r@[0]@.kind == HomeSectionKind::BigScroller,
        r@[1]@.kind == (HomeSectionKind::MangaList { ranking: true, page_size: 3 }),
        r@[2]@.kind == (HomeSectionKind::MangaList { ranking: true, page_size: 3 }),
        r@[3]@.kind == (HomeSectionKind::MangaList { ranking: true, page_size: 3 }),
        r@[4]@.kind == HomeSectionKind::Scroller,
{
    let mut r: Vec<SectionSpec> = Vec::new();
    r.push(section("正熱門", "當下超高人氣作品", HomeSectionKind::BigScroller));
    r.push(
        section("今日最佳", "今日爆款", HomeSectionKind::MangaList { ranking: true, page_size: 3 }),
    );
    r.push(
        section(
            "最近更新",
            "每日多次更新",
            HomeSectionKind::MangaList { ranking: true, page_size: 3 },
        ),
    );
    r.push(
        section(
            "本週熱門",
            "本週最熱漫畫",
            HomeSectionKind::MangaList { ranking: true, page_size: 3 },
        ),
    );
    r.push(section("已完結", "完結精選", HomeSectionKind::Scroller));
    assert(spec_views(r@) =~= spec_home_sections());
    assert(r@[0]@ == spec_views(r@)[0]);
    assert(r@[1]@ == spec_views(r@)[1]);
    assert(r@[2]@ == spec_views(r@)[2]);
    assert(r@[3]@ == spec_views(r@)[3]);
    assert(r@[4]@ == spec_views(r@)[4]);
    r
}

/// The element text equals one of the aliases once trimmed.
pub open spec fn is_title_match(t: Option<String>, aliases: Seq<Seq<char>>) -> bool {
    t is Some && aliases.contains(text::trim(t->0@))
}

/// Index of the first title div whose trimmed text equals one of the
/// aliases.
pub open spec fn title_index(texts: Seq<Option<String>>, aliases: Seq<Seq<char>>) -> Option<int> {
    if exists|i: int| 0 <= i < texts.len() && is_title_match(#[trigger] texts[i], aliases) {
        Some(
            choose|i: int|
                0 <= i < texts.len() && is_title_match(#[trigger] texts[i], aliases) && forall|
                    j: int,
                |
                    #![trigger texts[j]]
                    0 <= j < i ==> !is_title_match(texts[j], aliases),
        )
    } else {
        None
    }
}

proof fn lemma_title_found(texts: Seq<Option<String>>, aliases: Seq<Seq<char>>, i: int)
    requires
        0 <= i < texts.len(),
        is_title_match(texts[i], aliases),
    ensures
        title_index(texts, aliases) is Some,
        title_index(texts, aliases)->0 <= i,
{
    let k = choose|k: int|
        0 <= k < texts.len() && is_title_match(#[trigger] texts[k], aliases) && forall|j: int|
            #![trigger texts[j]]
            0 <= j < k ==> !is_title_match(texts[j], aliases);
    if !(0 <= k < texts.len() && is_title_match(texts[k], aliases) && forall|j: int|
        #![trigger texts[j]]
        0 <= j < k ==> !is_title_match(texts[j], aliases)) {
        lemma_first_title(texts, aliases, i);
    }
    if k > i {
        assert(!is_title_match(texts[i], aliases));
    }
}

proof fn lemma_first_title(texts: Seq<Option<String>>, aliases: Seq<Seq<char>>, i: int)
    requires
        0 <= i < texts.len(),
        is_title_match(texts[i], aliases),
    ensures
        exists|k: int|
            0 <= k < texts.len() && is_title_match(#[trigger] texts[k], aliases) && forall|j: int|
                #![trigger texts[j]]
                0 <= j < k ==> !is_title_match(texts[j], aliases),
    decreases i,
{
    if exists|j: int| 0 <= j < i && is_title_match(#[trigger] texts[j], aliases) {
        let j = choose|j: int| 0 <= j < i && is_title_match(#[trigger] texts[j], aliases);
        lemma_first_title(texts, aliases, j);
    } else {
        assert(0 <= i < texts.len() && is_title_match(texts[i], aliases) && forall|j: int|
            #![trigger texts[j]]
            0 <= j < i ==> !is_title_match(texts[j], aliases));
    }
}

/// Each of the five sections is found by the title the site renders for
/// it: a title div whose trimmed text is 正熱門, 今日最佳, 最近更新, 本週熱門
/// or 已完結 is matched (at that div or an earlier one) by the first,
/// second, third, fourth or fifth known section respectively.
pub proof fn law_home_titles_found(texts: Seq<Option<String>>, i: int)
    requires
        0 <= i < texts.len(),
        texts[i] is Some,
    ensures
        text::trim(texts[i]->0@) == "正熱門"@ ==> title_index(texts, spec_home_sections()[0].titles)
            is Some && title_index(texts, spec_home_sections()[0].titles)->0 <= i,
        text::trim(texts[i]->0@) == "今日最佳"@ ==> title_index(
            texts,
            spec_home_sections()[1].titles,
        ) is Some && title_index(texts, spec_home_sections()[1].titles)->0 <= i,
        text::trim(texts[i]->0@) == "最近更新"@ ==> title_index(
            texts,
            spec_home_sections()[2].titles,
        ) is Some && title_index(texts, spec_home_sections()[2].titles)->0 <= i,
        text::trim(texts[i]->0@) == "本週熱門"@ ==> title_index(
            texts,
            spec_home_sections()[3].titles,
        ) is Some && title_index(texts, spec_home_sections()[3].titles)->0 <= i,
        text::trim(texts[i]->0@) == "已完結"@ ==> title_index(texts, spec_home_sections()[4].titles)
            is Some && title_index(texts, spec_home_sections()[4].titles)->0 <= i,
{
    let t = text::trim(texts[i]->0@);
    let hs = spec_home_sections();
    if t == hs[0].titles[0] {
        assert(hs[0].titles.contains(t));
        lemma_title_found(texts, hs[0].titles, i);
    }
    if t == hs[1].titles[0] {
        assert(hs[1].titles.contains(t));
        lemma_title_found(texts, hs[1].titles, i);
    }
    if t == hs[2].titles[0] {
        assert(hs[2].titles.contains(t));
        lemma_title_found(texts, hs[2].titles, i);
    }
    if t == hs[3].titles[0] {
        assert(hs[3].titles.contains(t));
        lemma_title_found(texts, hs[3].titles, i);
    }
    if t == hs[4].titles[0] {
        assert(hs[4].titles.contains(t));
        lemma_title_found(texts, hs[4].titles, i);
    }
}

fn matches_alias(t: &String, aliases: &Vec<String>) -> (r: bool)
    ensures
        r == text::views(aliases@).contains(text::trim(t@)),
{
    let tc = text::to_chars(t.as_str());
    let trimmed = text::trim_chars(tc.as_slice());
    let mut k: usize = 0;
    while k < aliases.len()
        invariant
            k <= aliases@.len(),
            trimmed@ == text::trim(t@),
            forall|j: int| 0 <= j < k ==> aliases@[j]@ != trimmed@,
        decreases aliases.len() - k,
    {
        let ac = text::to_chars(aliases[k].as_str());
        if ac.len() == trimmed.len() && text::matches_at_exec(ac.as_slice(), trimmed.as_slice(), 0) {
            assert(ac@.subrange(0, trimmed@.len() as int) =~= ac@);
            assert(text::views(aliases@)[k as int] == trimmed@);
            return true;
        }
        if ac.len() == trimmed.len() {
            assert(ac@.subrange(0, trimmed@.len() as int) =~= ac@);
        }
        k += 1;
    }
    proof {
        if text::views(aliases@).contains(trimmed@) {
            let j = choose|j: int|
                0 <= j < text::views(aliases@).len() && text::views(aliases@)[j] == trimmed@;
            assert(aliases@[j]@ == trimmed@);
        }
    }
    false
}

/// Find the first `div.text-2xl` whose trimmed text matches one of the
/// title aliases, given the texts of those divs in page order.
pub fn find_title_element(texts: &Vec<Option<String>>, aliases: &Vec<String>) -> (r: Option<usize>)
    ensures
        match r {
            Some(i) => title_index(texts@, text::views(aliases@)) == Some(i as int),
            None => title_index(texts@, text::views(aliases@)) is None,
        },
{
    let ghost al = text::views(aliases@);
    let mut i: usize = 0;
    while i < texts.len()
        invariant
            al == text::views(aliases@),
            i <= texts@.len(),
            forall|j: int| 0 <= j < i ==> !is_title_match(#[trigger] texts@[j], al),
        decreases texts.len() - i,
    {
        if let Some(t) = &texts[i] {
            if matches_alias(t, aliases) {
                assert(is_title_match(texts@[i as int], al));
                let ghost c = choose|k: int|
                    0 <= k < texts@.len() && is_title_match(#[trigger] texts@[k], al) && forall|
                        j: int,
                    |
                        #![trigger texts@[j]]
                        0 <= j < k ==> !is_title_match(texts@[j], al);
                proof {
                    assert(0 <= i < texts@.len() && is_title_match(texts@[i as int], al) && forall|
                        j: int,
                    |
                        #![trigger texts@[j]]
                        0 <= j < i ==> !is_title_match(texts@[j], al));
                    if c < i {
                        assert(!is_title_match(texts@[c], al));
                    } else if c > i {
                        assert(!is_title_match(texts@[i as int], al));
                    }
                }
                return Some(i);
            }
        }
        i += 1;
    }
    None
}

/// What the page shows for a known section: the text of its title div and
/// the card anchors of its grid.
pub struct FoundSection {
    pub title_text: Option<String>,
    pub cards: Vec<listing::CardAnchor>,
}

/// The component for a found section.
pub open spec fn component_for(
    spec: SectionSpecView,
    found: FoundSection,
    base: Seq<char>,
) -> HomeComponentView {
    HomeComponentView {
        title: Some(
            match found.title_text {
                Some(t) => text::trim(t@),
                None => Seq::empty(),
            },
        ),
        subtitle: if spec.subtitles.len() > 0 {
            Some(spec.subtitles[0])
        } else {
            None
        },
        kind: spec.kind,
        entries: listing::manga_cards(found.cards@, base),
    }
}

/// Components for the found sections among the first `n` known sections.
pub open spec fn layout_upto(found: Seq<Option<FoundSection>>, n: int, base: Seq<char>) -> Seq<
    HomeComponentView,
>
    decreases n,
{
    if n <= 0 {
        Seq::empty()
    } else {
        let prev = layout_upto(found, n - 1, base);
        match found[n - 1] {
            Some(f) => prev.push(component_for(spec_home_sections()[n - 1], f, base)),
            None => prev,
        }
    }
}

/// The home layout from what the page shows for each known section, in
/// table order (`None` for a section the page does not show).
pub fn parse_home_layout(found: &Vec<Option<FoundSection>>, base: &str) -> (r: Vec<HomeComponent>)
    requires
        found@.len() == 5,
    ensures
        component_views(r@) == layout_upto(found@, 5, base@),
{
    let sections = home_sections();
    assert(spec_home_sections().len() == 5);
    assert(spec_views(sections@).len() == sections@.len());
    let mut r: Vec<HomeComponent> = Vec::new();
    let mut i: usize = 0;
    assert(component_views(r@) =~= Seq::<HomeComponentView>::empty());
    while i < 5
        invariant
            found@.len() == 5,
            spec_views(sections@) == spec_home_sections(),
            sections@.len() == 5,
            i <= 5,
            component_views(r@) == layout_upto(found@, i as int, base@),
        decreases 5 - i,
    {
        if let Some(f) = &found[i] {
            let title = match &f.title_text {
                Some(t) => text::trimmed_string(t.as_str()),
                None => String::new(),
            };
            let spec = &sections[i];
            assert(spec_views(sections@)[i as int] == sections@[i as int]@);
            assert(spec@ == spec_home_sections()[i as int]);
            let subtitle = if spec.subtitles.len() > 0 {
                Some(spec.subtitles[0].clone())
            } else {
                None
            };
            let entries = listing::extract_manga_cards(&f.cards, base);
            let c = HomeComponent { title: Some(title), subtitle, kind: spec.kind, entries };
            let ghost before = component_views(r@);
            r.push(c);
            assert(component_views(r@) =~= before.push(c@));
        }
        i += 1;
    }
    r
}

} // verus!
