//! The document model, metric extraction, and series alignment.

use crate::numbers;
use crate::result::SimpleError;
use crate::timeparse::parse_rfc3339_seconds;
use crate::timeparse::rfc3339_seconds;
use vstd::math::min;
use vstd::pervasive::VecAdditionalExecFns;
use vstd::prelude::*;

verus! {

/// One node of the parsed forecast document: a labelled tree with a tag
/// name, an ordered attribute list, an ordered child list, and optional
/// text content. The raw-XML parser that produces such a tree is outside
/// this library.
pub struct TreeNode {
    pub name: String,
    pub attributes: Vec<(String, String)>,
    pub children: Vec<TreeNode>,
    pub text: Option<String>,
}

/// Character-for-character equality of two string slices.
fn str_eq(a: &str, b: &str) -> (r: bool)
    ensures
        r == (a@ == b@),
{
    let a_len = a.unicode_len();
    let b_len = b.unicode_len();
    if a_len != b_len {
        return false;
    }
    let mut i: usize = 0;
    while i < a_len
        invariant
            a_len == a@.len(),
            b_len == b@.len(),
            a_len == b_len,
            i <= a_len,
            forall|j: int| 0 <= j < i ==> a@[j] == b@[j],
        decreases a_len - i,
    {
        if a.get_char(i) != b.get_char(i) {
            return false;
        }
        i += 1;
    }
    proof {
        assert(a@ =~= b@);
    }
    true
}

/// The value held by the first attribute of `attrs` named `key`, if any.
pub open spec fn attribute_value(attrs: Seq<(String, String)>, key: Seq<char>) -> Option<Seq<char>>
    decreases attrs.len(),
{
    if attrs.len() == 0 {
        None
    } else if attrs[0].0@ == key {
        Some(attrs[0].1@)
    } else {
        attribute_value(attrs.drop_first(), key)
    }
}

/// The first child of `children` whose tag name is `name`, if any.
pub open spec fn spec_get_child(children: Seq<TreeNode>, name: Seq<char>) -> Option<TreeNode>
    decreases children.len(),
{
    if children.len() == 0 {
        None
    } else if children[0].name@ == name {
        Some(children[0])
    } else {
        spec_get_child(children.drop_first(), name)
    }
}

impl TreeNode {
    /// The value of the attribute named `key`, if the node has one.
    pub fn attribute<'a>(&'a self, key: &str) -> (r: Option<&'a String>)
        ensures
            match r {
                Some(v) => attribute_value(self.attributes@, key@) == Some(v@),
                None => attribute_value(self.attributes@, key@) is None,
            },
    {
        let n = self.attributes.len();
        let mut i: usize = 0;
        proof {
            assert(self.attributes@.skip(0) =~= self.attributes@);
        }
        while i < n
            invariant
                n == self.attributes@.len(),
                i <= n,
                attribute_value(self.attributes@, key@) == attribute_value(
                    self.attributes@.skip(i as int),
                    key@,
                ),
            decreases n - i,
        {
            proof {
                assert(self.attributes@.skip(i as int)[0] == self.attributes@[i as int]);
            }
            if str_eq(self.attributes[i].0.as_str(), key) {
                return Some(&self.attributes[i].1);
            }
            proof {
                assert(self.attributes@.skip(i as int).drop_first() =~= self.attributes@.skip(
                    i as int + 1,
                ));
            }
            i += 1;
        }
        proof {
            assert(self.attributes@.skip(n as int) =~= Seq::<(String, String)>::empty());
        }
        None
    }

    /// The first immediate child with the given tag name, if any.
    pub fn get_child<'a>(&'a self, name: &str) -> (r: Option<&'a TreeNode>)
        ensures
            match r {
                Some(c) => spec_get_child(self.children@, name@) == Some(*c),
                None => spec_get_child(self.children@, name@) is None,
            },
    {
        let n = self.children.len();
        let mut i: usize = 0;
        proof {
            assert(self.children@.skip(0) =~= self.children@);
        }
        while i < n
            invariant
                n == self.children@.len(),
                i <= n,
                spec_get_child(self.children@, name@) == spec_get_child(
                    self.children@.skip(i as int),
                    name@,
                ),
            decreases n - i,
        {
            proof {
                assert(self.children@.skip(i as int)[0] == self.children@[i as int]);
            }
            if str_eq(self.children[i].name.as_str(), name) {
                return Some(&self.children[i]);
            }
            proof {
                assert(self.children@.skip(i as int).drop_first() =~= self.children@.skip(
                    i as int + 1,
                ));
            }
            i += 1;
        }
        proof {
            assert(self.children@.skip(n as int) =~= Seq::<TreeNode>::empty());
        }
        None
    }
}

/// Does the optional attribute value `e` hold exactly the text `val`?
/// Absence of the attribute and a differing value are treated identically.
pub fn matches(e: Option<&String>, val: &str) -> (r: bool)
    ensures
        r == (e is Some && e.unwrap()@ == val@),
{
    match e {
        Some(s) => str_eq(s.as_str(), val),
        None => false,
    }
}

/// The ghost form of a [`Selector`], over character sequences.
pub ghost struct SpecSelector {
    pub tag: Seq<char>,
    pub attr: Option<(Seq<char>, Seq<char>)>,
}

/// A selection predicate over document nodes: the node's tag name must
/// equal `tag`, and, when `attr` is set, the node must carry the named
/// attribute with exactly the given value. A missing attribute and a
/// differing value are treated identically: no match.
pub struct Selector {
    pub tag: String,
    pub attr: Option<(String, String)>,
}

impl View for Selector {
    type V = SpecSelector;

    open spec fn view(&self) -> SpecSelector {
        SpecSelector {
            tag: self.tag@,
            attr: match self.attr {
                Some(kv) => Some((kv.0@, kv.1@)),
                None => None,
            },
        }
    }
}

/// Does `node` satisfy the selector `sel`?
pub open spec fn spec_selector_matches(sel: SpecSelector, node: TreeNode) -> bool {
    &&& node.name@ == sel.tag
    &&& match sel.attr {
        Some(kv) => attribute_value(node.attributes@, kv.0) == Some(kv.1),
        None => true,
    }
}

impl Selector {
    /// A selector that matches every node with the tag `tag`.
    pub fn for_tag(tag: &str) -> (s: Selector)
        ensures
            s@ == (SpecSelector { tag: tag@, attr: None }),
    {
        Selector { tag: tag.to_owned(), attr: None }
    }

    /// A selector that matches a node with the tag `tag` only when its
    /// attribute `key` holds exactly `value`.
    pub fn for_tag_attr(tag: &str, key: &str, value: &str) -> (s: Selector)
        ensures
            s@ == (SpecSelector { tag: tag@, attr: Some((key@, value@)) }),
    {
        Selector { tag: tag.to_owned(), attr: Some((key.to_owned(), value.to_owned())) }
    }

    /// Does `node` satisfy this selector?
    pub fn matches_node(&self, node: &TreeNode) -> (r: bool)
        ensures
            r == spec_selector_matches(self@, *node),
    {
        if !str_eq(node.name.as_str(), self.tag.as_str()) {
            return false;
        }
        match &self.attr {
            Some(kv) => matches(node.attribute(kv.0.as_str()), kv.1.as_str()),
            None => true,
        }
    }
}

/// Does the value node hold either no text, or text that is a
/// well-formed `i32` literal?
pub open spec fn slot_ok(node: TreeNode) -> bool {
    match node.text {
        Some(t) => numbers::is_i32_literal(t@),
        None => true,
    }
}

/// The slot contributed by one value node: a parsed number when the node
/// has text, an explicit absence when it has none.
pub open spec fn spec_slot(node: TreeNode) -> Option<i32> {
    match node.text {
        Some(t) => Some(numbers::int_literal_value(t@) as i32),
        None => None,
    }
}

/// Does every value node of `points` hold well-formed text?
pub open spec fn slots_ok(points: Seq<TreeNode>) -> bool {
    forall|i: int| 0 <= i < points.len() ==> slot_ok(#[trigger] points[i])
}

/// The slots contributed by the value nodes `points`, in document order.
pub open spec fn slots_of(points: Seq<TreeNode>) -> Seq<Option<i32>> {
    points.map_values(|n: TreeNode| spec_slot(n))
}

/// Is every slot under every child of `children` matching `sel`
/// well-formed?
pub open spec fn region_ok(children: Seq<TreeNode>, sel: SpecSelector) -> bool {
    forall|i: int|
        0 <= i < children.len() ==> (spec_selector_matches(sel, #[trigger] children[i])
            ==> slots_ok(children[i].children@))
}

/// The concatenated slots of all children of `children` that satisfy
/// `sel`, in document order.
pub open spec fn region_slots(children: Seq<TreeNode>, sel: SpecSelector) -> Seq<Option<i32>>
    decreases children.len(),
{
    if children.len() == 0 {
        Seq::empty()
    } else {
        region_slots(children.drop_last(), sel) + (if spec_selector_matches(
            sel,
            children.last(),
        ) {
            slots_of(children.last().children@)
        } else {
            Seq::empty()
        })
    }
}

/// Taking one more child either appends that child's slots or nothing,
/// depending on whether it matches.
proof fn lemma_region_slots_step(children: Seq<TreeNode>, sel: SpecSelector, i: int)
    requires
        0 <= i < children.len(),
    ensures
        region_slots(children.take(i + 1), sel) == region_slots(children.take(i), sel) + (
        if spec_selector_matches(sel, children[i]) {
            slots_of(children[i].children@)
        } else {
            Seq::<Option<i32>>::empty()
        }),
{
    assert(children.take(i + 1).drop_last() =~= children.take(i));
    assert(children.take(i + 1).last() == children[i]);
}

/// Extracts one metric's per-slot values. Walks the immediate children
/// of `parent`; under each child satisfying `selector`, every grandchild
/// contributes exactly one slot: a parsed number when it has text, an
/// explicit absence when it has none. Slots of several matching children
/// concatenate in document order. A malformed numeric literal anywhere
/// under a matching child is a fatal parse error, not a soft skip.
pub fn parse_region(parent: &TreeNode, selector: &Selector) -> (r: Result<
    Vec<Option<i32>>,
    SimpleError,
>)
    ensures
        r is Ok <==> region_ok(parent.children@, selector@),
        r is Ok ==> r.unwrap()@ == region_slots(parent.children@, selector@),
        r is Err ==> r.unwrap_err() is Parse,
{
    let mut out: Vec<Option<i32>> = Vec::new();
    let n = parent.children.len();
    let mut i: usize = 0;
    proof {
        assert(parent.children@.take(0) =~= Seq::<TreeNode>::empty());
    }
    while i < n
        invariant
            i <= n,
            n == parent.children@.len(),
            region_ok(parent.children@.take(i as int), selector@),
            out@ == region_slots(parent.children@.take(i as int), selector@),
        decreases n - i,
    {
        let child = &parent.children[i];
        if selector.matches_node(child) {
            let m = child.children.len();
            let mut j: usize = 0;
            proof {
                assert(child.children@.take(0) =~= Seq::<TreeNode>::empty());
                assert(child.children@.take(0).map_values(|nd: TreeNode| spec_slot(nd))
                    =~= Seq::<Option<i32>>::empty());
            }
            while j < m
                invariant
                    j <= m,
                    m == child.children@.len(),
                    i < n,
                    n == parent.children@.len(),
                    child == &parent.children@[i as int],
                    spec_selector_matches(selector@, *child),
                    region_ok(parent.children@.take(i as int), selector@),
                    slots_ok(child.children@.take(j as int)),
                    out@ == region_slots(parent.children@.take(i as int), selector@) + slots_of(
                        child.children@.take(j as int),
                    ),
                decreases m - j,
            {
                let point = &child.children[j];
                let slot: Option<i32> = match &point.text {
                    Some(t) => {
                        match numbers::parse_i32(t.as_str()) {
                            Ok(v) => Some(v),
                            Err(e) => {
                                proof {
                                    assert(!slot_ok(child.children@[j as int]));
                                    assert(!slots_ok(child.children@));
                                    assert(!region_ok(parent.children@, selector@));
                                }
                                return Err(e);
                            },
                        }
                    },
                    None => None,
                };
                proof {
                    assert(child.children@.take(j + 1).drop_last() =~= child.children@.take(
                        j as int,
                    ));
                    assert(child.children@.take(j + 1).map_values(|nd: TreeNode| spec_slot(nd))
                        =~= child.children@.take(j as int).map_values(
                        |nd: TreeNode| spec_slot(nd),
                    ).push(spec_slot(child.children@[j as int])));
                }
                out.push(slot);
                j += 1;
            }
            proof {
                assert(child.children@.take(m as int) =~= child.children@);
                lemma_region_slots_step(parent.children@, selector@, i as int);
            }
        } else {
            proof {
                lemma_region_slots_step(parent.children@, selector@, i as int);
            }
        }
        proof {
            assert(region_ok(parent.children@.take(i + 1), selector@)) by {
                assert(forall|k: int|
                    0 <= k < i + 1 ==> parent.children@.take(i + 1)[k]
                        == #[trigger] parent.children@.take(i as int + 1)[k]);
                assert(forall|k: int|
                    0 <= k < i ==> parent.children@.take(i + 1)[k] == #[trigger] parent.children@.take(
                        i as int,
                    )[k]);
            }
        }
        i += 1;
    }
    proof {
        assert(parent.children@.take(n as int) =~= parent.children@);
    }
    Ok(out)
}

/// Is `node` a timestamp entry of the time layout?
pub open spec fn is_time_node(node: TreeNode) -> bool {
    node.name@ == "start-valid-time"@
}

/// Does the timestamp entry hold text denoting a well-formed timestamp?
pub open spec fn time_node_ok(node: TreeNode) -> bool {
    &&& node.text is Some
    &&& rfc3339_seconds(node.text.unwrap()@) is Some
}

/// Does every timestamp entry of the layout hold a well-formed
/// timestamp?
pub open spec fn time_layout_ok(children: Seq<TreeNode>) -> bool {
    forall|i: int|
        0 <= i < children.len() ==> (is_time_node(#[trigger] children[i]) ==> time_node_ok(
            children[i],
        ))
}

/// The instants named by the layout's timestamp entries, in document
/// order, in seconds since the Unix epoch.
pub open spec fn timestamps_of(children: Seq<TreeNode>) -> Seq<i64>
    decreases children.len(),
{
    if children.len() == 0 {
        Seq::empty()
    } else {
        timestamps_of(children.drop_last()) + (if is_time_node(children.last()) {
            seq![rfc3339_seconds(children.last().text.unwrap()@).unwrap() as i64]
        } else {
            Seq::<i64>::empty()
        })
    }
}

/// Taking one more layout entry appends its timestamp, or nothing when
/// the entry is not a timestamp node.
proof fn lemma_timestamps_step(children: Seq<TreeNode>, i: int)
    requires
        0 <= i < children.len(),
    ensures
        timestamps_of(children.take(i + 1)) == timestamps_of(children.take(i)) + (
        if is_time_node(children[i]) {
            seq![rfc3339_seconds(children[i].text.unwrap()@).unwrap() as i64]
        } else {
            Seq::<i64>::empty()
        }),
{
    assert(children.take(i + 1).drop_last() =~= children.take(i));
    assert(children.take(i + 1).last() == children[i]);
}

/// Reads the master timestamp list: every `start-valid-time` entry of
/// the time layout, in document order, turned into seconds since the
/// Unix epoch. An entry without text, or whose text is not a well-formed
/// timestamp, is a fatal parse error.
pub fn parse_timestamps(time_layout: &TreeNode) -> (r: Result<Vec<i64>, SimpleError>)
    ensures
        r is Ok <==> time_layout_ok(time_layout.children@),
        r is Ok ==> r.unwrap()@ == timestamps_of(time_layout.children@),
        r is Err ==> r.unwrap_err() is Parse,
{
    let mut out: Vec<i64> = Vec::new();
    let n = time_layout.children.len();
    let mut i: usize = 0;
    proof {
        assert(time_layout.children@.take(0) =~= Seq::<TreeNode>::empty());
    }
    while i < n
        invariant
            i <= n,
            n == time_layout.children@.len(),
            time_layout_ok(time_layout.children@.take(i as int)),
            out@ == timestamps_of(time_layout.children@.take(i as int)),
        decreases n - i,
    {
        let child = &time_layout.children[i];
        if str_eq(child.name.as_str(), "start-valid-time") {
            match &child.text {
                Some(t) => {
                    match parse_rfc3339_seconds(t.as_str()) {
                        Some(sec) => {
                            out.push(sec);
                        },
                        None => {
                            proof {
                                assert(!time_node_ok(time_layout.children@[i as int]));
                            }
                            return Err(SimpleError::Parse("malformed timestamp".to_owned()));
                        },
                    }
                },
                None => {
                    proof {
                        assert(!time_node_ok(time_layout.children@[i as int]));
                    }
                    return Err(SimpleError::Parse("timestamp entry without text".to_owned()));
                },
            }
        }
        proof {
            lemma_timestamps_step(time_layout.children@, i as int);
            assert(time_layout_ok(time_layout.children@.take(i + 1))) by {
                assert(forall|k: int|
                    0 <= k < i ==> time_layout.children@.take(i + 1)[k]
                        == #[trigger] time_layout.children@.take(i as int)[k]);
                assert(time_layout.children@.take(i + 1)[i as int] == time_layout.children@[i as int]);
            }
        }
        i += 1;
    }
    proof {
        assert(time_layout.children@.take(n as int) =~= time_layout.children@);
    }
    Ok(out)
}

/// One fully-resolved forecast record: a timestamp and six integer
/// metrics. The field names and their order are part of the observable
/// contract of the serialized output.
#[derive(Clone, Copy, Debug, PartialEq, Eq, Structural)]
pub struct DataPoint {
    pub unix_seconds: i64,
    pub temperature: i32,
    pub precipitation_chance: i32,
    pub dew_point: i32,
    pub relative_humidity: i32,
    pub clouds: i32,
    pub wind: i32,
}

impl DataPoint {
    /// A record with every field at its neutral default.
    pub fn new() -> (p: DataPoint)
        ensures
            p.unix_seconds == 0,
            p.temperature == 0,
            p.precipitation_chance == 0,
            p.dew_point == 0,
            p.relative_humidity == 0,
            p.clouds == 0,
            p.wind == 0,
    {
        DataPoint {
            unix_seconds: 0,
            temperature: 0,
            precipitation_chance: 0,
            dew_point: 0,
            relative_humidity: 0,
            clouds: 0,
            wind: 0,
        }
    }

    /// Returns this record with the field selected by `m` set to `v`.
    pub fn with_metric(self, m: Metric, v: i32) -> (r: DataPoint)
        ensures
            r == spec_with_metric(self, m, v),
    {
        match m {
            Metric::Temperature => DataPoint { temperature: v, ..self },
            Metric::PrecipitationChance => DataPoint { precipitation_chance: v, ..self },
            Metric::DewPoint => DataPoint { dew_point: v, ..self },
            Metric::RelativeHumidity => DataPoint { relative_humidity: v, ..self },
            Metric::Clouds => DataPoint { clouds: v, ..self },
            Metric::Wind => DataPoint { wind: v, ..self },
        }
    }
}

/// Which field of a [`DataPoint`] a metric array fills.
#[derive(Clone, Copy, Debug, PartialEq, Eq, Structural)]
pub enum Metric {
    Temperature,
    PrecipitationChance,
    DewPoint,
    RelativeHumidity,
    Clouds,
    Wind,
}

/// `p` with the field selected by `m` set to `v`.
pub open spec fn spec_with_metric(p: DataPoint, m: Metric, v: i32) -> DataPoint {
    match m {
        Metric::Temperature => DataPoint { temperature: v, ..p },
        Metric::PrecipitationChance => DataPoint { precipitation_chance: v, ..p },
        Metric::DewPoint => DataPoint { dew_point: v, ..p },
        Metric::RelativeHumidity => DataPoint { relative_humidity: v, ..p },
        Metric::Clouds => DataPoint { clouds: v, ..p },
        Metric::Wind => DataPoint { wind: v, ..p },
    }
}

/// How many slots of `vals` hold a present value.
pub open spec fn count_some(vals: Seq<Option<i32>>) -> nat
    decreases vals.len(),
{
    if vals.len() == 0 {
        0
    } else {
        count_some(vals.drop_last()) + (if vals.last() is Some {
            1nat
        } else {
            0nat
        })
    }
}

/// Taking one more slot raises the count exactly when it is present.
proof fn lemma_count_some_step(vals: Seq<Option<i32>>, i: int)
    requires
        0 <= i < vals.len(),
    ensures
        count_some(vals.take(i + 1)) == count_some(vals.take(i)) + (if vals[i] is Some {
            1int
        } else {
            0int
        }),
{
    assert(vals.take(i + 1).drop_last() =~= vals.take(i));
    assert(vals.take(i + 1).last() == vals[i]);
}

/// No more slots are present than there are slots.
pub proof fn lemma_count_some_le_len(vals: Seq<Option<i32>>)
    ensures
        count_some(vals) <= vals.len(),
    decreases vals.len(),
{
    if vals.len() > 0 {
        lemma_count_some_le_len(vals.drop_last());
    }
}

/// Copies every present slot of `vals` into the field selected by
/// `metric` of the record at the same position, and reports how many
/// slots were present anywhere in the array. A position whose slot is
/// absent keeps the field's prior value.
pub fn fill_in(vals: &Vec<Option<i32>>, output: &mut Vec<DataPoint>, metric: Metric) -> (valid:
    usize)
    requires
        vals@.len() == old(output)@.len(),
    ensures
        valid == count_some(vals@),
        final(output)@.len() == old(output)@.len(),
        forall|i: int|
            0 <= i < vals@.len() ==> final(output)@[i] == (match vals@[i] {
                Some(v) => spec_with_metric(old(output)@[i], metric, v),
                None => old(output)@[i],
            }),
{
    let n = vals.len();
    let mut valid: usize = 0;
    let mut i: usize = 0;
    proof {
        assert(vals@.take(0) =~= Seq::<Option<i32>>::empty());
    }
    while i < n
        invariant
            i <= n,
            n == vals@.len(),
            output@.len() == old(output)@.len(),
            n == output@.len(),
            valid <= i,
            valid == count_some(vals@.take(i as int)),
            forall|j: int|
                0 <= j < i ==> output@[j] == (match vals@[j] {
                    Some(v) => spec_with_metric(old(output)@[j], metric, v),
                    None => old(output)@[j],
                }),
            forall|j: int| i <= j < n ==> output@[j] == old(output)@[j],
        decreases n - i,
    {
        proof {
            lemma_count_some_step(vals@, i as int);
        }
        match vals[i] {
            Some(v) => {
                let updated = output[i].with_metric(metric, v);
                output.set(i, updated);
                valid = valid + 1;
            },
            None => {},
        }
        i += 1;
    }
    proof {
        assert(vals@.take(n as int) =~= vals@);
    }
    valid
}

/// The record at position `i` of the aligned output before truncation:
/// the timestamp at `i`, and each metric's slot value at `i`, with an
/// absent slot left at the neutral default.
pub open spec fn point_at(
    ts: Seq<i64>,
    temps: Seq<Option<i32>>,
    precips: Seq<Option<i32>>,
    dews: Seq<Option<i32>>,
    hums: Seq<Option<i32>>,
    clouds: Seq<Option<i32>>,
    winds: Seq<Option<i32>>,
    i: int,
) -> DataPoint {
    DataPoint {
        unix_seconds: ts[i],
        temperature: slot_or_zero(temps, i),
        precipitation_chance: slot_or_zero(precips, i),
        dew_point: slot_or_zero(dews, i),
        relative_humidity: slot_or_zero(hums, i),
        clouds: slot_or_zero(clouds, i),
        wind: slot_or_zero(winds, i),
    }
}

/// The value of the slot at `i`, or the neutral default when absent.
pub open spec fn slot_or_zero(vals: Seq<Option<i32>>, i: int) -> i32 {
    match vals[i] {
        Some(v) => v,
        None => 0,
    }
}

/// How many leading records are served: the least count of present
/// slots over the six metric arrays.
pub open spec fn valid_prefix_len(
    temps: Seq<Option<i32>>,
    precips: Seq<Option<i32>>,
    dews: Seq<Option<i32>>,
    hums: Seq<Option<i32>>,
    clouds: Seq<Option<i32>>,
    winds: Seq<Option<i32>>,
) -> int {
    min(
        min(min(count_some(temps) as int, count_some(precips) as int), count_some(dews) as int),
        min(min(count_some(hums) as int, count_some(clouds) as int), count_some(winds) as int),
    )
}

/// The aligned output: one record per timestamp position, truncated to
/// the prefix whose length is the least per-metric count of present
/// slots.
pub open spec fn aligned(
    ts: Seq<i64>,
    temps: Seq<Option<i32>>,
    precips: Seq<Option<i32>>,
    dews: Seq<Option<i32>>,
    hums: Seq<Option<i32>>,
    clouds: Seq<Option<i32>>,
    winds: Seq<Option<i32>>,
) -> Seq<DataPoint> {
    Seq::new(
        valid_prefix_len(temps, precips, dews, hums, clouds, winds) as nat,
        |i: int| point_at(ts, temps, precips, dews, hums, clouds, winds, i),
    )
}

/// Combines the master timestamp list with the six extracted metric
/// arrays. Every metric array must hold exactly one slot per timestamp;
/// a length mismatch is a logic error in the upstream extraction pairing
/// and is rejected outright rather than silently truncated. Otherwise
/// one record is built per position, each present slot is copied into
/// its field, and only the leading records — as many as the least
/// per-metric count of present slots — are returned.
pub fn align(
    timestamps: &Vec<i64>,
    temps: &Vec<Option<i32>>,
    precips: &Vec<Option<i32>>,
    dews: &Vec<Option<i32>>,
    hums: &Vec<Option<i32>>,
    clouds: &Vec<Option<i32>>,
    winds: &Vec<Option<i32>>,
) -> (r: Result<Vec<DataPoint>, SimpleError>)
    ensures
        r is Ok <==> {
            &&& temps@.len() == timestamps@.len()
            &&& precips@.len() == timestamps@.len()
            &&& dews@.len() == timestamps@.len()
            &&& hums@.len() == timestamps@.len()
            &&& clouds@.len() == timestamps@.len()
            &&& winds@.len() == timestamps@.len()
        },
        r is Ok ==> r.unwrap()@ == aligned(
            timestamps@,
            temps@,
            precips@,
            dews@,
            hums@,
            clouds@,
            winds@,
        ),
        r is Err ==> r.unwrap_err() is Alignment,
{
    let n = timestamps.len();
    if temps.len() != n || precips.len() != n || dews.len() != n || hums.len() != n
        || clouds.len() != n || winds.len() != n {
        return Err(SimpleError::Alignment("metric array length mismatch".to_owned()));
    }
    let mut points: Vec<DataPoint> = Vec::new();
    let mut i: usize = 0;
    while i < n
        invariant
            i <= n,
            n == timestamps@.len(),
            points@.len() == i,
            forall|j: int|
                0 <= j < i ==> points@[j] == (DataPoint {
                    unix_seconds: timestamps@[j],
                    temperature: 0,
                    precipitation_chance: 0,
                    dew_point: 0,
                    relative_humidity: 0,
                    clouds: 0,
                    wind: 0,
                }),
        decreases n - i,
    {
        points.push(
            DataPoint {
                unix_seconds: timestamps[i],
                temperature: 0,
                precipitation_chance: 0,
                dew_point: 0,
                relative_humidity: 0,
                clouds: 0,
                wind: 0,
            },
        );
        i += 1;
    }
    let v_temps = fill_in(temps, &mut points, Metric::Temperature);
    let v_precips = fill_in(precips, &mut points, Metric::PrecipitationChance);
    let v_dews = fill_in(dews, &mut points, Metric::DewPoint);
    let v_hums = fill_in(hums, &mut points, Metric::RelativeHumidity);
    let v_clouds = fill_in(clouds, &mut points, Metric::Clouds);
    let v_winds = fill_in(winds, &mut points, Metric::Wind);
    let mut valid: usize = v_temps;
    if v_precips < valid {
        valid = v_precips;
    }
    if v_dews < valid {
        valid = v_dews;
    }
    if v_hums < valid {
        valid = v_hums;
    }
    if v_clouds < valid {
        valid = v_clouds;
    }
    if v_winds < valid {
        valid = v_winds;
    }
    proof {
        lemma_count_some_le_len(temps@);
    }
    points.truncate(valid);
    proof {
        assert(points@ =~= aligned(
            timestamps@,
            temps@,
            precips@,
            dews@,
            hums@,
            clouds@,
            winds@,
        ));
    }
    Ok(points)
}

/// The selector of the hourly temperature metric.
pub open spec fn temperature_selector() -> SpecSelector {
    SpecSelector { tag: "temperature"@, attr: Some(("type"@, "hourly"@)) }
}

/// The selector of the precipitation-chance metric.
pub open spec fn precipitation_selector() -> SpecSelector {
    SpecSelector { tag: "probability-of-precipitation"@, attr: None }
}

/// The selector of the dew-point metric.
pub open spec fn dew_point_selector() -> SpecSelector {
    SpecSelector { tag: "temperature"@, attr: Some(("type"@, "dew point"@)) }
}

/// The selector of the relative-humidity metric.
pub open spec fn humidity_selector() -> SpecSelector {
    SpecSelector { tag: "humidity"@, attr: Some(("type"@, "relative"@)) }
}

/// The selector of the cloud-cover metric.
pub open spec fn clouds_selector() -> SpecSelector {
    SpecSelector { tag: "cloud-amount"@, attr: None }
}

/// The selector of the sustained-wind metric.
pub open spec fn wind_selector() -> SpecSelector {
    SpecSelector { tag: "wind-speed"@, attr: Some(("type"@, "sustained"@)) }
}

/// The `data` section of the document, assuming it is present.
pub open spec fn spec_data(root: TreeNode) -> TreeNode {
    spec_get_child(root.children@, "data"@).unwrap()
}

/// The `time-layout` section of the document, assuming it is present.
pub open spec fn spec_time_layout(root: TreeNode) -> TreeNode {
    spec_get_child(spec_data(root).children@, "time-layout"@).unwrap()
}

/// The `parameters` section of the document, assuming it is present.
pub open spec fn spec_parameters(root: TreeNode) -> TreeNode {
    spec_get_child(spec_data(root).children@, "parameters"@).unwrap()
}

/// Are the document's required sections present: a `data` child holding
/// a `time-layout` and a `parameters` section?
pub open spec fn doc_sections_ok(root: TreeNode) -> bool {
    &&& spec_get_child(root.children@, "data"@) is Some
    &&& spec_get_child(spec_data(root).children@, "time-layout"@) is Some
    &&& spec_get_child(spec_data(root).children@, "parameters"@) is Some
}

/// Do the timestamp list and every metric region hold well-formed text
/// throughout?
pub open spec fn doc_values_ok(root: TreeNode) -> bool {
    &&& time_layout_ok(spec_time_layout(root).children@)
    &&& region_ok(spec_parameters(root).children@, temperature_selector())
    &&& region_ok(spec_parameters(root).children@, precipitation_selector())
    &&& region_ok(spec_parameters(root).children@, dew_point_selector())
    &&& region_ok(spec_parameters(root).children@, humidity_selector())
    &&& region_ok(spec_parameters(root).children@, clouds_selector())
    &&& region_ok(spec_parameters(root).children@, wind_selector())
}

/// Is the document well-formed apart from the per-metric slot counts?
pub open spec fn doc_structure_ok(root: TreeNode) -> bool {
    doc_sections_ok(root) && doc_values_ok(root)
}

/// Does every metric region hold exactly one slot per timestamp?
pub open spec fn doc_lengths_ok(root: TreeNode) -> bool {
    let n = timestamps_of(spec_time_layout(root).children@).len();
    &&& region_slots(spec_parameters(root).children@, temperature_selector()).len() == n
    &&& region_slots(spec_parameters(root).children@, precipitation_selector()).len() == n
    &&& region_slots(spec_parameters(root).children@, dew_point_selector()).len() == n
    &&& region_slots(spec_parameters(root).children@, humidity_selector()).len() == n
    &&& region_slots(spec_parameters(root).children@, clouds_selector()).len() == n
    &&& region_slots(spec_parameters(root).children@, wind_selector()).len() == n
}

/// Is the whole document acceptable?
pub open spec fn doc_ok(root: TreeNode) -> bool {
    doc_structure_ok(root) && doc_lengths_ok(root)
}

/// The data points served for the document: the six extracted metric
/// arrays aligned against the master timestamp list.
pub open spec fn doc_points(root: TreeNode) -> Seq<DataPoint> {
    aligned(
        timestamps_of(spec_time_layout(root).children@),
        region_slots(spec_parameters(root).children@, temperature_selector()),
        region_slots(spec_parameters(root).children@, precipitation_selector()),
        region_slots(spec_parameters(root).children@, dew_point_selector()),
        region_slots(spec_parameters(root).children@, humidity_selector()),
        region_slots(spec_parameters(root).children@, clouds_selector()),
        region_slots(spec_parameters(root).children@, wind_selector()),
    )
}

/// Turns the parsed forecast document into the sequence of served data
/// points: reads the master timestamp list from the time layout,
/// extracts the six metric arrays from the parameters section, and
/// aligns them against the timestamps. Parse failures and misaligned
/// lengths abort the request rather than surface a partial result.
pub fn parse_document(root: &TreeNode) -> (r: Result<Vec<DataPoint>, SimpleError>)
    ensures
        r is Ok <==> doc_ok(*root),
        r is Ok ==> r.unwrap()@ == doc_points(*root),
        r is Err ==> (if doc_structure_ok(*root) {
            r.unwrap_err() is Alignment
        } else {
            r.unwrap_err() is Parse
        }),
{
    let data = match root.get_child("data") {
        Some(d) => d,
        None => {
            return Err(SimpleError::Parse("missing section: data".to_owned()));
        },
    };
    let time_layout = match data.get_child("time-layout") {
        Some(t) => t,
        None => {
            return Err(SimpleError::Parse("missing section: time-layout".to_owned()));
        },
    };
    let parameters = match data.get_child("parameters") {
        Some(p) => p,
        None => {
            return Err(SimpleError::Parse("missing section: parameters".to_owned()));
        },
    };
    let timestamps = match parse_timestamps(time_layout) {
        Ok(v) => v,
        Err(e) => {
            return Err(e);
        },
    };
    let temps = match parse_region(
        parameters,
        &Selector::for_tag_attr("temperature", "type", "hourly"),
    ) {
        Ok(v) => v,
        Err(e) => {
            return Err(e);
        },
    };
    let precips = match parse_region(parameters, &Selector::for_tag("probability-of-precipitation")) {
        Ok(v) => v,
        Err(e) => {
            return Err(e);
        },
    };
    let dews = match parse_region(
        parameters,
        &Selector::for_tag_attr("temperature", "type", "dew point"),
    ) {
        Ok(v) => v,
        Err(e) => {
            return Err(e);
        },
    };
    let hums = match parse_region(
        parameters,
        &Selector::for_tag_attr("humidity", "type", "relative"),
    ) {
        Ok(v) => v,
        Err(e) => {
            return Err(e);
        },
    };
    let clouds = match parse_region(parameters, &Selector::for_tag("cloud-amount")) {
        Ok(v) => v,
        Err(e) => {
            return Err(e);
        },
    };
    let winds = match parse_region(
        parameters,
        &Selector::for_tag_attr("wind-speed", "type", "sustained"),
    ) {
        Ok(v) => v,
        Err(e) => {
            return Err(e);
        },
    };
    align(&timestamps, &temps, &precips, &dews, &hums, &clouds, &winds)
}

/// An empty timestamp list aligns to an empty output. With the
/// one-slot-per-timestamp invariant the metric arrays are then empty as
/// well, so the output is empty whatever they held.
pub proof fn lemma_empty_timestamps_align_empty(
    ts: Seq<i64>,
    temps: Seq<Option<i32>>,
    precips: Seq<Option<i32>>,
    dews: Seq<Option<i32>>,
    hums: Seq<Option<i32>>,
    clouds: Seq<Option<i32>>,
    winds: Seq<Option<i32>>,
)
    requires
        ts.len() == 0,
        temps.len() == ts.len(),
        precips.len() == ts.len(),
        dews.len() == ts.len(),
        hums.len() == ts.len(),
        clouds.len() == ts.len(),
        winds.len() == ts.len(),
    ensures
        aligned(ts, temps, precips, dews, hums, clouds, winds) == Seq::<DataPoint>::empty(),
{
    assert(aligned(ts, temps, precips, dews, hums, clouds, winds) =~= Seq::<DataPoint>::empty());
}

/// A selector that demands an attribute value never matches a node
/// whose attribute holds a different value: a selector for hourly
/// temperatures cannot match a sibling temperature node marked as dew
/// point.
pub proof fn lemma_selector_attr_discriminates(
    sel: SpecSelector,
    node: TreeNode,
    k: Seq<char>,
    v: Seq<char>,
    w: Seq<char>,
)
    requires
        sel.attr == Some((k, v)),
        attribute_value(node.attributes@, k) == Some(w),
        v != w,
    ensures
        !spec_selector_matches(sel, node),
{
}

} // verus!
