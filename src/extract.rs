use vstd::prelude::*;
use scraper::{Html, Selector};
use crate::config::TagConfig;
use crate::record::Record;
use crate::text::{trimmed, joined, strings_view, join_with, trim_whitespace};

verus! {

#[verifier::external_type_specification]
#[verifier::external_body]
pub struct ExHtml(Html);

/// Whether a tag selector string is one that the selector parser accepts.
pub uninterp spec fn selector_valid(tag: Seq<char>) -> bool;

/// The elements that the selector `tag` matches in the HTML document with
/// source `html`, in document order: for each, the value of each attribute
/// named in `names`, and its text nodes.
pub uninterp spec fn matched_elements(html: Seq<char>, tag: Seq<char>, names: Seq<Seq<char>>) -> Seq<ElementView>;

/// Relies on scraper::Selector::parse: it succeeds exactly on the selector
/// strings it accepts, which depends on the string alone.
#[verifier::external_body]
fn selector_parses(tag: &str) -> (r: bool)
    ensures
        r == selector_valid(tag@),
{
    Selector::parse(tag).is_ok()
}

/// Relies on scraper::Html::parse_document, which never fails.
#[verifier::external_body]
fn parse_html(source: &str) -> (r: Html) {
    Html::parse_document(source)
}

/// Relies on scraper's Selector::parse, Html::select, Element::attr and
/// ElementRef::text: what they give depends on the document's source, the
/// selector and the names alone.
#[verifier::external_body]
fn select_elements(document: &Document, tag: &str, names: &[String]) -> (r: Vec<MatchedElement>)
    requires
        selector_valid(tag@),
    ensures
        elements_view(r@) == matched_elements(document@, tag@, strings_view(names@)),
{
    let selector = Selector::parse(tag).unwrap();
    document.html.select(&selector).map(|e| MatchedElement {
        values: names.iter().map(|n| e.value().attr(n).map(|v| v.to_string())).collect(),
        texts: e.text().map(|t| t.to_string()).collect(),
    }).collect()
}

/// A parsed HTML document, kept with the source text it was parsed from.
pub struct Document {
    source: String,
    html: Html,
}

impl View for Document {
    type V = Seq<char>;

    closed spec fn view(&self) -> Seq<char> {
        self.source@
    }
}

impl Document {
    /// The document parsed from `source`.
    pub fn parse(source: &str) -> (d: Document)
        ensures
            d@ == source@,
    {
        Document { source: source.to_owned(), html: parse_html(source) }
    }
}

/// What extraction reads of one matched element: the value of each requested
/// attribute, where the element carries it, and the text of its descendant
/// text nodes in document order.
pub struct MatchedElement {
    pub values: Vec<Option<String>>,
    pub texts: Vec<String>,
}

/// A matched element as plain sequences.
pub struct ElementView {
    pub values: Seq<Option<Seq<char>>>,
    pub texts: Seq<Seq<char>>,
}

pub open spec fn optional_view(o: Option<String>) -> Option<Seq<char>> {
    match o {
        Some(s) => Some(s@),
        None => None,
    }
}

impl View for MatchedElement {
    type V = ElementView;

    open spec fn view(&self) -> ElementView {
        ElementView {
            values: self.values@.map_values(|o: Option<String>| optional_view(o)),
            texts: strings_view(self.texts@),
        }
    }
}

pub open spec fn elements_view(els: Seq<MatchedElement>) -> Seq<ElementView> {
    els.map_values(|e: MatchedElement| e@)
}

/// Why an extraction was refused.
#[derive(Debug)]
pub enum ExtractError {
    /// The tag selector is not a valid selector expression.
    InvalidSelector(String),
}

/// The text content of an element: its text nodes joined by single spaces, trimmed.
pub open spec fn text_of(texts: Seq<Seq<char>>) -> Seq<char> {
    trimmed(joined(texts, " "@))
}

/// The captured attributes, for the names in order, where `values` holds the
/// value of each name; absent ones are left out.
pub open spec fn attrs_record(values: Seq<Option<Seq<char>>>, names: Seq<Seq<char>>) -> Map<Seq<char>, Seq<char>>
    decreases names.len(),
{
    if names.len() == 0 {
        Map::empty()
    } else {
        let m = attrs_record(values, names.drop_last());
        let i = names.len() - 1;
        if i < values.len() {
            match values[i] {
                Some(v) => m.insert(names.last(), v),
                None => m,
            }
        } else {
            m
        }
    }
}

/// The record for one element: its captured attributes, and its text under
/// `"text"` where that is not empty.
pub open spec fn element_record(el: ElementView, names: Seq<Seq<char>>) -> Map<Seq<char>, Seq<char>> {
    let m = attrs_record(el.values, names);
    let t = text_of(el.texts);
    if t.len() > 0 {
        m.insert("text"@, t)
    } else {
        m
    }
}

/// The records for a sequence of elements, in order, without the empty ones.
pub open spec fn extracted(els: Seq<ElementView>, names: Seq<Seq<char>>) -> Seq<Map<Seq<char>, Seq<char>>>
    decreases els.len(),
{
    if els.len() == 0 {
        Seq::empty()
    } else {
        let prev = extracted(els.drop_last(), names);
        let r = element_record(els.last(), names);
        if r == Map::<Seq<char>, Seq<char>>::empty() {
            prev
        } else {
            prev.push(r)
        }
    }
}

pub open spec fn records_view(rs: Seq<Record>) -> Seq<Map<Seq<char>, Seq<char>>> {
    rs.map_values(|r: Record| r@)
}

pub open spec fn all_wf(rs: Seq<Record>) -> bool {
    forall|i: int| 0 <= i < rs.len() ==> #[trigger] rs[i].wf()
}

/// The text content of an element from its text nodes.
pub fn text_content(texts: &Vec<String>) -> (r: String)
    ensures
        r@ == text_of(strings_view(texts@)),
{
    let joined_text = join_with(texts, " ");
    trim_whitespace(&joined_text)
}

/// The record for one element: the attributes named in `names` that it
/// carries, and its text content under `"text"` where that is not empty.
pub fn record_for_element(el: &MatchedElement, names: &[String]) -> (r: Record)
    ensures
        r.wf(),
        r@ == element_record(el@, strings_view(names@)),
{
    let ghost nv = strings_view(names@);
    let mut rec = Record::new();
    let mut i: usize = 0;
    while i < names.len()
        invariant
            0 <= i <= names@.len(),
            nv == strings_view(names@),
            rec.wf(),
            rec@ == attrs_record(el@.values, nv.subrange(0, i as int)),
        decreases names@.len() - i,
    {
        assert(nv.subrange(0, i + 1).drop_last() =~= nv.subrange(0, i as int));
        if i < el.values.len() {
            match &el.values[i] {
                Some(v) => {
                    rec.insert(names[i].clone(), v.clone());
                },
                None => {},
            }
        }
        i = i + 1;
    }
    assert(nv.subrange(0, names@.len() as int) =~= nv);
    let text = text_content(&el.texts);
    if !text.as_str().is_empty() {
        rec.insert("text".to_owned(), text);
    }
    rec
}

/// The records for the matched elements, in order; an element that yields no
/// field gives no record.
pub fn extract_records(elements: &Vec<MatchedElement>, attributes: &[String]) -> (r: Vec<Record>)
    ensures
        all_wf(r@),
        records_view(r@) == extracted(elements@.map_values(|e: MatchedElement| e@), strings_view(attributes@)),
        elements@.len() == 0 ==> r@.len() == 0,
        forall|i: int| 0 <= i < r@.len() ==> #[trigger] r@[i]@ != Map::<Seq<char>, Seq<char>>::empty(),
{
    let ghost ev = elements@.map_values(|e: MatchedElement| e@);
    let ghost nv = strings_view(attributes@);
    let mut out: Vec<Record> = Vec::new();
    let mut i: usize = 0;
    while i < elements.len()
        invariant
            0 <= i <= elements@.len(),
            ev == elements@.map_values(|e: MatchedElement| e@),
            nv == strings_view(attributes@),
            all_wf(out@),
            records_view(out@) == extracted(ev.subrange(0, i as int), nv),
        decreases elements@.len() - i,
    {
        assert(ev.subrange(0, i + 1).drop_last() =~= ev.subrange(0, i as int));
        let rec = record_for_element(&elements[i], attributes);
        let n = rec.len();
        if n > 0 {
            let ghost prev = out@;
            out.push(rec);
            assert(records_view(out@) =~= records_view(prev).push(rec@));
            assert(rec@ != Map::<Seq<char>, Seq<char>>::empty()) by {
                assert(Map::<Seq<char>, Seq<char>>::empty().len() == 0);
            }
        } else {
            assert(rec@ =~= Map::<Seq<char>, Seq<char>>::empty()) by {
                assert forall|k| !rec@.contains_key(k) by {
                    if rec@.contains_key(k) {
                        assert(rec@.dom().contains(k));
                        vstd::set_lib::lemma_set_empty_equivalency_len(rec@.dom());
                    }
                }
            }
        }
        i = i + 1;
    }
    assert(ev.subrange(0, elements@.len() as int) =~= ev);
    proof {
        lemma_records_not_empty(ev, nv);
        assert forall|i: int| 0 <= i < out@.len() implies #[trigger] out@[i]@ != Map::<
            Seq<char>,
            Seq<char>,
        >::empty() by {
            assert(records_view(out@)[i] == out@[i]@);
        }
    }
    out
}

/// The records of several selectors: each selector's records, in the order
/// of the selectors.
pub open spec fn extracted_all(groups: Seq<Seq<ElementView>>, names: Seq<Seq<Seq<char>>>) -> Seq<Map<Seq<char>, Seq<char>>>
    decreases groups.len(),
{
    if groups.len() == 0 || names.len() == 0 {
        Seq::empty()
    } else {
        extracted_all(groups.drop_last(), names.drop_last()) + extracted(groups.last(), names.last())
    }
}

pub open spec fn tag_names(tags: Seq<TagConfig>) -> Seq<Seq<Seq<char>>> {
    tags.map_values(|t: TagConfig| strings_view(t.attributes@))
}

/// Whether `i` is the first tag selector that does not parse.
pub open spec fn first_invalid(tags: Seq<TagConfig>, i: int) -> bool {
    0 <= i < tags.len() && !selector_valid(tags[i].name@) && forall|j: int|
        0 <= j < i ==> selector_valid(#[trigger] tags[j].name@)
}

/// The matched elements of each selector specification, in order.
pub open spec fn matched_groups(html: Seq<char>, tags: Seq<TagConfig>) -> Seq<Seq<ElementView>> {
    tags.map_values(|t: TagConfig| matched_elements(html, t.name@, strings_view(t.attributes@)))
}

/// Records of the elements that `tag` selects in `document`, in document
/// order, each with the attributes in `attributes` that the element carries
/// and its text; elements that yield no field give no record.
pub fn scrape_attributes_and_content(document: &Document, tag: &str, attributes: &[String]) -> (r: Result<
    Vec<Record>,
    ExtractError,
>)
    ensures
        r.is_err() == !selector_valid(tag@),
        match r {
            Ok(v) => all_wf(v@) && (forall|i: int|
                0 <= i < v@.len() ==> #[trigger] v@[i]@ != Map::<Seq<char>, Seq<char>>::empty())
                && records_view(v@) == extracted(
                matched_elements(document@, tag@, strings_view(attributes@)),
                strings_view(attributes@),
            ),
            Err(ExtractError::InvalidSelector(s)) => s@ == tag@,
        },
{
    if selector_parses(tag) {
        let elements = select_elements(document, tag, attributes);
        Ok(extract_records(&elements, attributes))
    } else {
        Err(ExtractError::InvalidSelector(tag.to_owned()))
    }
}

/// Records for all selector specifications, in their order. Every selector is
/// parsed before any is applied: the first that does not parse is the error.
pub fn extract(document: &Document, tags: &[TagConfig]) -> (r: Result<Vec<Record>, ExtractError>)
    ensures
        r.is_ok() == forall|i: int| 0 <= i < tags@.len() ==> selector_valid(#[trigger] tags@[i].name@),
        match r {
            Ok(v) => all_wf(v@) && (forall|i: int|
                0 <= i < v@.len() ==> #[trigger] v@[i]@ != Map::<Seq<char>, Seq<char>>::empty())
                && records_view(v@) == extracted_all(matched_groups(document@, tags@), tag_names(tags@)),
            Err(ExtractError::InvalidSelector(s)) => exists|i: int|
                first_invalid(tags@, i) && s@ == tags@[i].name@,
        },
{
    let mut i: usize = 0;
    while i < tags.len()
        invariant
            0 <= i <= tags@.len(),
            forall|j: int| 0 <= j < i ==> selector_valid(#[trigger] tags@[j].name@),
        decreases tags@.len() - i,
    {
        if !selector_parses(tags[i].name.as_str()) {
            assert(first_invalid(tags@, i as int));
            return Err(ExtractError::InvalidSelector(tags[i].name.clone()));
        }
        i = i + 1;
    }
    let ghost tn = tag_names(tags@);
    let ghost mg = matched_groups(document@, tags@);
    let mut out: Vec<Record> = Vec::new();
    let mut k: usize = 0;
    while k < tags.len()
        invariant
            0 <= k <= tags@.len(),
            forall|j: int| 0 <= j < tags@.len() ==> selector_valid(#[trigger] tags@[j].name@),
            tn == tag_names(tags@),
            mg == matched_groups(document@, tags@),
            all_wf(out@),
            forall|i: int| 0 <= i < out@.len() ==> #[trigger] out@[i]@ != Map::<Seq<char>, Seq<char>>::empty(),
            records_view(out@) == extracted_all(mg.subrange(0, k as int), tn.subrange(0, k as int)),
        decreases tags@.len() - k,
    {
        let elements = select_elements(document, tags[k].name.as_str(), tags[k].attributes.as_slice());
        let recs = extract_records(&elements, tags[k].attributes.as_slice());
        let ghost els = elements_view(elements@);
        let ghost prev = out@;
        let ghost added = recs@;
        let mut recs = recs;
        out.append(&mut recs);
        proof {
            assert forall|i: int| 0 <= i < out@.len() implies #[trigger] out@[i]@ != Map::<
                Seq<char>,
                Seq<char>,
            >::empty() by {
                if i >= prev.len() {
                    assert(out@[i] == added[i - prev.len()]);
                }
            }
            assert(mg.subrange(0, k + 1).drop_last() =~= mg.subrange(0, k as int));
            assert(tn.subrange(0, k + 1).drop_last() =~= tn.subrange(0, k as int));
            assert(tn[k as int] == strings_view(tags@[k as int].attributes@));
            assert(mg[k as int] == els);
            assert(elements@.map_values(|e: MatchedElement| e@) == els);
            assert(records_view(out@) =~= records_view(prev) + extracted(els, tn[k as int]));
        }
        k = k + 1;
    }
    assert(tn.subrange(0, tags@.len() as int) =~= tn);
    assert(mg.subrange(0, tags@.len() as int) =~= mg);
    Ok(out)
}

/// A selector that matches no element contributes no record.
pub proof fn lemma_no_match_no_records(names: Seq<Seq<char>>)
    ensures
        extracted(Seq::empty(), names) == Seq::<Map<Seq<char>, Seq<char>>>::empty(),
{
}

/// Every record that extraction emits has at least one field.
pub proof fn lemma_records_not_empty(els: Seq<ElementView>, names: Seq<Seq<char>>)
    ensures
        forall|i: int| 0 <= i < extracted(els, names).len() ==>
            #[trigger] extracted(els, names)[i] != Map::<Seq<char>, Seq<char>>::empty(),
    decreases els.len(),
{
    if els.len() > 0 {
        lemma_records_not_empty(els.drop_last(), names);
        let prev = extracted(els.drop_last(), names);
        let r = element_record(els.last(), names);
        if r != Map::<Seq<char>, Seq<char>>::empty() {
            assert forall|i: int| 0 <= i < prev.push(r).len() implies #[trigger] prev.push(r)[i]
                != Map::<Seq<char>, Seq<char>>::empty() by {
                if i < prev.len() {
                    assert(prev[i] != Map::<Seq<char>, Seq<char>>::empty());
                }
            }
        }
    }
}

/// Extraction over a list of selectors is the concatenation, in order, of the
/// extraction over each part of the list.
pub proof fn lemma_extract_concat(
    g1: Seq<Seq<ElementView>>,
    n1: Seq<Seq<Seq<char>>>,
    g2: Seq<Seq<ElementView>>,
    n2: Seq<Seq<Seq<char>>>,
)
    requires
        g1.len() == n1.len(),
        g2.len() == n2.len(),
    ensures
        extracted_all(g1 + g2, n1 + n2) == extracted_all(g1, n1) + extracted_all(g2, n2),
    decreases g2.len(),
{
    if g2.len() == 0 {
        assert(g1 + g2 =~= g1);
        assert(n1 + n2 =~= n1);
        assert(extracted_all(g1, n1) + extracted_all(g2, n2) =~= extracted_all(g1, n1));
    } else {
        assert((g1 + g2).drop_last() =~= g1 + g2.drop_last());
        assert((n1 + n2).drop_last() =~= n1 + n2.drop_last());
        lemma_extract_concat(g1, n1, g2.drop_last(), n2.drop_last());
        assert(extracted_all(g1 + g2, n1 + n2) =~= extracted_all(g1, n1) + extracted_all(g2, n2));
    }
}

/// For two selectors, the output is the first selector's records followed by
/// the second's.
pub proof fn lemma_two_selectors_in_order(
    e1: Seq<ElementView>,
    a1: Seq<Seq<char>>,
    e2: Seq<ElementView>,
    a2: Seq<Seq<char>>,
)
    ensures
        extracted_all(seq![e1, e2], seq![a1, a2]) == extracted(e1, a1) + extracted(e2, a2),
{
    assert(seq![e1, e2].drop_last() =~= seq![e1]);
    assert(seq![a1, a2].drop_last() =~= seq![a1]);
    assert(seq![e1].drop_last() =~= Seq::<Seq<ElementView>>::empty());
    assert(seq![a1].drop_last() =~= Seq::<Seq<Seq<char>>>::empty());
    assert(seq![e1, e2].last() == e2);
    assert(seq![a1, a2].last() == a2);
    assert(seq![e1].last() == e1);
    assert(seq![a1].last() == a1);
    assert(extracted_all(Seq::<Seq<ElementView>>::empty(), Seq::<Seq<Seq<char>>>::empty())
        == Seq::<Map<Seq<char>, Seq<char>>>::empty());
    assert(Seq::<Map<Seq<char>, Seq<char>>>::empty() + extracted(e1, a1) =~= extracted(e1, a1));
    assert(extracted_all(seq![e1], seq![a1]) == extracted(e1, a1));
}

/// For a document and two selector specifications, extraction gives the
/// records of the first selector, then those of the second: the same records
/// that scraping with each selector alone gives.
pub proof fn lemma_extract_two_tags_in_order(html: Seq<char>, t1: TagConfig, t2: TagConfig)
    ensures
        extracted_all(matched_groups(html, seq![t1, t2]), tag_names(seq![t1, t2])) == extracted(
            matched_elements(html, t1.name@, strings_view(t1.attributes@)),
            strings_view(t1.attributes@),
        ) + extracted(
            matched_elements(html, t2.name@, strings_view(t2.attributes@)),
            strings_view(t2.attributes@),
        ),
{
    let e1 = matched_elements(html, t1.name@, strings_view(t1.attributes@));
    let e2 = matched_elements(html, t2.name@, strings_view(t2.attributes@));
    let a1 = strings_view(t1.attributes@);
    let a2 = strings_view(t2.attributes@);
    assert(matched_groups(html, seq![t1, t2]) =~= seq![e1, e2]);
    assert(tag_names(seq![t1, t2]) =~= seq![a1, a2]);
    lemma_two_selectors_in_order(e1, a1, e2, a2);
}

} // verus!
