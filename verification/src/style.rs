//! Style resolution: selector matching and the cascade. Each document
//! node gets a styled node holding its resolved property mapping; rules
//! are applied in ascending specificity order, stylesheet order breaking
//! ties, and later declarations overwrite earlier ones.

use vstd::prelude::*;
use crate::css::{Declaration, Rule, Selector, SimpleSelector, Specificity, Stylesheet, Value,
    specificity_lt};
use crate::dom::{ElementData, Node, NodeType};
use crate::layout::Display;
use crate::strutil::{contains_str, str_eq};

verus! {

/// A resolved property mapping: name/value pairs in application order. A
/// later entry for the same name shadows an earlier one.
#[derive(Debug)]
pub struct PropertyMap {
    pub entries: Vec<(String, Value)>,
}

/// The value bound to `name`: the last entry with that name, if any.
pub open spec fn prop_get(entries: Seq<(String, Value)>, name: Seq<char>) -> Option<Value>
    decreases entries.len(),
{
    if entries.len() == 0 {
        None
    } else if entries.last().0@ == name {
        Some(entries.last().1)
    } else {
        prop_get(entries.drop_last(), name)
    }
}

impl PropertyMap {
    pub open spec fn get_spec(&self, name: Seq<char>) -> Option<Value> {
        prop_get(self.entries@, name)
    }

    pub fn new() -> (r: PropertyMap)
        ensures
            r.entries@ =~= Seq::<(String, Value)>::empty(),
    {
        PropertyMap { entries: Vec::new() }
    }

    pub fn insert(&mut self, name: String, value: Value)
        ensures
            final(self).entries@ =~= old(self).entries@.push((name, value)),
    {
        self.entries.push((name, value));
    }

    pub fn get(&self, name: &str) -> (r: Option<&Value>)
        ensures
            match r {
                Some(v) => self.get_spec(name@) == Some(*v),
                None => self.get_spec(name@) is None,
            },
    {
        let mut i: usize = self.entries.len();
        proof {
            assert(self.entries@.subrange(0, i as int) =~= self.entries@);
        }
        while i > 0
            invariant
                0 <= i <= self.entries.len(),
                prop_get(self.entries@, name@) == prop_get(
                    self.entries@.subrange(0, i as int),
                    name@,
                ),
            decreases i,
        {
            i = i - 1;
            proof {
                assert(self.entries@.subrange(0, i as int + 1).drop_last() =~= self
                    .entries@
                    .subrange(0, i as int));
                assert(self.entries@.subrange(0, i as int + 1).last() == self.entries@[i as int]);
            }
            let entry = &self.entries[i];
            if str_eq(entry.0.as_str(), name) {
                return Some(&entry.1);
            }
        }
        proof {
            assert(self.entries@.subrange(0, 0) =~= Seq::<(String, Value)>::empty());
        }
        None
    }

    /// The resolved value of a property, if any was declared.
    pub fn value(&self, name: &str) -> (r: Option<Value>)
        ensures
            r == self.get_spec(name@),
    {
        match self.get(name) {
            Some(v) => Some(v.duplicate()),
            None => None,
        }
    }

    /// A property value with a fallback chain: the property itself, then
    /// a shorthand property, then a hard-coded default.
    pub open spec fn lookup_spec(&self, name: Seq<char>, fallback_name: Seq<char>, default: Value) -> Value {
        match self.get_spec(name) {
            Some(v) => v,
            None => match self.get_spec(fallback_name) {
                Some(v) => v,
                None => default,
            },
        }
    }

    pub fn lookup(&self, name: &str, fallback_name: &str, default: &Value) -> (r: Value)
        ensures
            r == self.lookup_spec(name@, fallback_name@, *default),
    {
        match self.value(name) {
            Some(v) => v,
            None => match self.value(fallback_name) {
                Some(v) => v,
                None => default.duplicate(),
            },
        }
    }

    /// Display classification: a pure function of the `display` value.
    pub open spec fn display_spec(&self) -> Display {
        match self.get_spec("display"@) {
            Some(v) => match v {
                Value::Keyword(s) => if s@ == "block"@ {
                    Display::Block
                } else if s@ == "none"@ {
                    Display::DisplayNone
                } else {
                    Display::Inline
                },
                _ => Display::Inline,
            },
            None => Display::Inline,
        }
    }

    pub fn display(&self) -> (r: Display)
        ensures
            r == self.display_spec(),
    {
        match self.get("display") {
            Some(v) => match v {
                Value::Keyword(s) => if str_eq(s.as_str(), "block") {
                    Display::Block
                } else if str_eq(s.as_str(), "none") {
                    Display::DisplayNone
                } else {
                    Display::Inline
                },
                _ => Display::Inline,
            },
            None => Display::Inline,
        }
    }
}

/// A styled node: the resolved property mapping of one document node and
/// the styled children mirroring its document children.
#[derive(Debug)]
pub struct StyledNode {
    pub specified_values: PropertyMap,
    pub children: Vec<StyledNode>,
}

impl StyledNode {
    pub open spec fn value_spec(&self, name: Seq<char>) -> Option<Value> {
        self.specified_values.get_spec(name)
    }

    /// The resolved value of a property, if any was declared.
    pub fn value(&self, name: &str) -> (r: Option<Value>)
        ensures
            r == self.value_spec(name@),
    {
        self.specified_values.value(name)
    }

    /// A property value with a fallback chain: the property itself, then
    /// a shorthand property, then a hard-coded default.
    pub open spec fn lookup_spec(&self, name: Seq<char>, fallback_name: Seq<char>, default: Value) -> Value {
        self.specified_values.lookup_spec(name, fallback_name, default)
    }

    pub fn lookup(&self, name: &str, fallback_name: &str, default: &Value) -> (r: Value)
        ensures
            r == self.lookup_spec(name@, fallback_name@, *default),
    {
        self.specified_values.lookup(name, fallback_name, default)
    }

    /// Display classification: a pure function of the `display` property.
    pub open spec fn display_spec(&self) -> Display {
        self.specified_values.display_spec()
    }

    pub fn display(&self) -> (r: Display)
        ensures
            r == self.display_spec(),
    {
        self.specified_values.display()
    }
}

/// Whether a simple selector matches an element: every specified
/// component — tag name, id, each class — must be present and equal or
/// contained; absent components never constrain.
pub open spec fn matches_simple_selector_spec(el: ElementData, sel: SimpleSelector) -> bool {
    &&& match sel.tag_name {
        Some(t) => el.tag_name@ == t@,
        None => true,
    }
    &&& match sel.id {
        Some(i) => el.id_spec() == Some(i@),
        None => true,
    }
    &&& forall|k: int|
        0 <= k < sel.class@.len() ==> el.classes_spec().contains(#[trigger] sel.class@[k]@)
}

pub open spec fn matches_spec(el: ElementData, selector: Selector) -> bool {
    match selector {
        Selector::Simple(s) => matches_simple_selector_spec(el, s),
    }
}

pub fn matches(ele: &ElementData, selector: &Selector) -> (r: bool)
    ensures
        r == matches_spec(*ele, *selector),
{
    match selector {
        Selector::Simple(simple_selector) => matches_simple_selector(ele, simple_selector),
    }
}

pub fn matches_simple_selector(elem: &ElementData, selector: &SimpleSelector) -> (r: bool)
    ensures
        r == matches_simple_selector_spec(*elem, *selector),
{
    match &selector.tag_name {
        Some(name) => if !str_eq(elem.tag_name.as_str(), name.as_str()) {
            return false;
        },
        None => {},
    }
    match &selector.id {
        Some(id) => {
            match elem.id() {
                Some(v) => if !str_eq(v.as_str(), id.as_str()) {
                    return false;
                },
                None => {
                    return false;
                },
            }
        },
        None => {},
    }
    let ele_classes = elem.classes();
    let mut k: usize = 0;
    while k < selector.class.len()
        invariant
            0 <= k <= selector.class@.len(),
            ele_classes.deep_view() =~= elem.classes_spec(),
            forall|j: int|
                0 <= j < k ==> elem.classes_spec().contains(#[trigger] selector.class@[j]@),
        decreases selector.class@.len() - k,
    {
        if !contains_str(&ele_classes, selector.class[k].as_str()) {
            return false;
        }
        k = k + 1;
    }
    true
}

/// A matched rule for the cascade: the specificity of the first matching
/// selector, and the rule's position in the stylesheet.
pub type MatchedRule = (Specificity, usize);

/// The specificity the rule contributes: that of its first matching
/// selector in written order, if any selector matches.
pub open spec fn match_rule_spec(el: ElementData, sels: Seq<Selector>) -> Option<Specificity>
    decreases sels.len(),
{
    if sels.len() == 0 {
        None
    } else if matches_spec(el, sels[0]) {
        Some(sels[0].specificity_spec())
    } else {
        match_rule_spec(el, sels.drop_first())
    }
}

fn match_rule(elem: &ElementData, rule: &Rule) -> (r: Option<Specificity>)
    ensures
        r == match_rule_spec(*elem, rule.selectors@),
{
    let n = rule.selectors.len();
    let mut i: usize = 0;
    proof {
        assert(rule.selectors@.subrange(0, n as int) =~= rule.selectors@);
    }
    while i < n
        invariant
            0 <= i <= n,
            n == rule.selectors@.len(),
            match_rule_spec(*elem, rule.selectors@) == match_rule_spec(
                *elem,
                rule.selectors@.subrange(i as int, n as int),
            ),
        decreases n - i,
    {
        proof {
            let tail = rule.selectors@.subrange(i as int, n as int);
            assert(tail[0] == rule.selectors@[i as int]);
            assert(tail.drop_first() =~= rule.selectors@.subrange(i as int + 1, n as int));
        }
        let sel = &rule.selectors[i];
        if matches(elem, sel) {
            return Some(sel.specificity());
        }
        i = i + 1;
    }
    None
}

/// All rules matching an element, in stylesheet order, paired with their
/// positions.
pub open spec fn matching_rules_spec(el: ElementData, rules: Seq<Rule>) -> Seq<MatchedRule>
    decreases rules.len(),
{
    if rules.len() == 0 {
        Seq::empty()
    } else {
        matching_rules_spec(el, rules.drop_last()) + (match match_rule_spec(
            el,
            rules.last().selectors@,
        ) {
            Some(s) => seq![(s, (rules.len() - 1) as usize)],
            None => Seq::<MatchedRule>::empty(),
        })
    }
}

fn matching_rules(elem: &ElementData, stylesheet: &Stylesheet) -> (r: Vec<MatchedRule>)
    ensures
        r@ == matching_rules_spec(*elem, stylesheet.rules@),
{
    let mut out: Vec<MatchedRule> = Vec::new();
    let n = stylesheet.rules.len();
    let mut i: usize = 0;
    proof {
        assert(stylesheet.rules@.subrange(0, 0) =~= Seq::<Rule>::empty());
    }
    while i < n
        invariant
            0 <= i <= n,
            n == stylesheet.rules@.len(),
            out@ == matching_rules_spec(*elem, stylesheet.rules@.subrange(0, i as int)),
        decreases n - i,
    {
        proof {
            let pre = stylesheet.rules@.subrange(0, i as int + 1);
            assert(pre.drop_last() =~= stylesheet.rules@.subrange(0, i as int));
            assert(pre.last() == stylesheet.rules@[i as int]);
        }
        match match_rule(elem, &stylesheet.rules[i]) {
            Some(s) => {
                out.push((s, i));
                proof {
                    assert(out@ =~= matching_rules_spec(
                        *elem,
                        stylesheet.rules@.subrange(0, i as int + 1),
                    ));
                }
            },
            None => {
                proof {
                    assert(out@ =~= matching_rules_spec(
                        *elem,
                        stylesheet.rules@.subrange(0, i as int + 1),
                    ));
                }
            },
        }
        i = i + 1;
    }
    proof {
        assert(stylesheet.rules@.subrange(0, n as int) =~= stylesheet.rules@);
    }
    out
}

/// Cascade order on matched rules: ascending specificity, stylesheet
/// position breaking ties.
pub open spec fn rule_le(a: MatchedRule, b: MatchedRule) -> bool {
    specificity_lt(a.0, b.0) || (a.0 == b.0 && a.1 <= b.1)
}

fn rule_le_exec(a: MatchedRule, b: MatchedRule) -> (r: bool)
    ensures
        r == rule_le(a, b),
{
    let (sa, ia) = a;
    let (sb, ib) = b;
    if sa.0 < sb.0 {
        true
    } else if sa.0 == sb.0 && sa.1 < sb.1 {
        true
    } else if sa.0 == sb.0 && sa.1 == sb.1 && sa.2 < sb.2 {
        true
    } else if sa.0 == sb.0 && sa.1 == sb.1 && sa.2 == sb.2 {
        ia <= ib
    } else {
        false
    }
}

/// Inserts a matched rule behind every element that precedes it in
/// cascade order.
pub open spec fn insert_sorted(s: Seq<MatchedRule>, x: MatchedRule) -> Seq<MatchedRule>
    decreases s.len(),
{
    if s.len() == 0 {
        seq![x]
    } else if rule_le(s.last(), x) {
        s.push(x)
    } else {
        insert_sorted(s.drop_last(), x).push(s.last())
    }
}

/// The stable ascending sort of the matched rules.
pub open spec fn sort_matched(s: Seq<MatchedRule>) -> Seq<MatchedRule>
    decreases s.len(),
{
    if s.len() == 0 {
        Seq::empty()
    } else {
        insert_sorted(sort_matched(s.drop_last()), s.last())
    }
}

proof fn lemma_insert_sorted_split(s: Seq<MatchedRule>, x: MatchedRule, j: int)
    requires
        0 <= j <= s.len(),
        forall|k: int| j <= k < s.len() ==> !rule_le(#[trigger] s[k], x),
        j > 0 ==> rule_le(s[j - 1], x),
    ensures
        insert_sorted(s, x) =~= s.subrange(0, j) + seq![x] + s.subrange(j, s.len() as int),
    decreases s.len(),
{
    if s.len() == 0 {
        assert(insert_sorted(s, x) =~= seq![x]);
    } else if rule_le(s.last(), x) {
        assert(j == s.len());
        assert(s.subrange(0, j) =~= s);
        assert(insert_sorted(s, x) =~= s.push(x));
    } else {
        lemma_insert_sorted_split(s.drop_last(), x, j);
        assert(s.drop_last().subrange(0, j) =~= s.subrange(0, j));
        assert(s.drop_last().subrange(j, s.len() - 1) =~= s.subrange(j, s.len() - 1));
        assert(insert_sorted(s, x) =~= insert_sorted(s.drop_last(), x).push(s.last()));
    }
}

fn insert_by_order(v: &mut Vec<MatchedRule>, x: MatchedRule)
    ensures
        final(v)@ == insert_sorted(old(v)@, x),
{
    let mut j: usize = v.len();
    while j > 0 && !rule_le_exec(v[j - 1], x)
        invariant
            0 <= j <= v@.len(),
            forall|k: int| j <= k < v@.len() ==> !rule_le(#[trigger] v@[k], x),
        decreases j,
    {
        j = j - 1;
    }
    proof {
        lemma_insert_sorted_split(v@, x, j as int);
    }
    v.insert(j, x);
    proof {
        assert(v@ =~= old(v)@.subrange(0, j as int) + seq![x] + old(v)@.subrange(
            j as int,
            old(v)@.len() as int,
        ));
    }
}

/// A rule's declarations as mapping entries.
pub open spec fn decl_pairs(decls: Seq<Declaration>) -> Seq<(String, Value)> {
    decls.map(|i: int, d: Declaration| (d.name, d.value))
}

/// The declarations of the sorted matched rules, concatenated in cascade
/// order.
pub open spec fn apply_sorted(rules: Seq<Rule>, sorted: Seq<MatchedRule>) -> Seq<(String, Value)>
    decreases sorted.len(),
{
    if sorted.len() == 0 {
        Seq::empty()
    } else {
        apply_sorted(rules, sorted.drop_last()) + decl_pairs(
            rules[sorted.last().1 as int].declarations@,
        )
    }
}

/// The element's specified values: every matching rule applied in
/// ascending specificity order, stylesheet order breaking ties, later
/// declarations overwriting earlier ones for the same property.
pub open spec fn cascade_entries(el: ElementData, rules: Seq<Rule>) -> Seq<(String, Value)> {
    apply_sorted(rules, sort_matched(matching_rules_spec(el, rules)))
}

proof fn lemma_matching_rules_idx(el: ElementData, rules: Seq<Rule>)
    ensures
        forall|k: int|
            0 <= k < matching_rules_spec(el, rules).len() ==> (
            #[trigger] matching_rules_spec(el, rules)[k]).1 < rules.len(),
    decreases rules.len(),
{
    if rules.len() > 0 {
        lemma_matching_rules_idx(el, rules.drop_last());
        let prefix = matching_rules_spec(el, rules.drop_last());
        let whole = matching_rules_spec(el, rules);
        assert forall|k: int| 0 <= k < whole.len() implies (#[trigger] whole[k]).1
            < rules.len() by {
            if k < prefix.len() {
                assert(whole[k] == prefix[k]);
            }
        }
    }
}

proof fn lemma_insert_sorted_all(s: Seq<MatchedRule>, x: MatchedRule, bound: int)
    requires
        forall|k: int| 0 <= k < s.len() ==> (#[trigger] s[k]).1 < bound,
        x.1 < bound,
    ensures
        forall|k: int|
            0 <= k < insert_sorted(s, x).len() ==> (#[trigger] insert_sorted(s, x)[k]).1 < bound,
    decreases s.len(),
{
    let out = insert_sorted(s, x);
    if s.len() == 0 {
        assert(out =~= seq![x]);
    } else if rule_le(s.last(), x) {
        assert(out =~= s.push(x));
        assert forall|k: int| 0 <= k < out.len() implies (#[trigger] out[k]).1 < bound by {
            if k < s.len() {
                assert(out[k] == s[k]);
            }
        }
    } else {
        lemma_insert_sorted_all(s.drop_last(), x, bound);
        let inner = insert_sorted(s.drop_last(), x);
        assert(out =~= inner.push(s.last()));
        assert forall|k: int| 0 <= k < out.len() implies (#[trigger] out[k]).1 < bound by {
            if k < inner.len() {
                assert(out[k] == inner[k]);
            } else {
                assert(out[k] == s.last());
                assert(s.last() == s[s.len() - 1]);
            }
        }
    }
}

proof fn lemma_sort_matched_all(s: Seq<MatchedRule>, bound: int)
    requires
        forall|k: int| 0 <= k < s.len() ==> (#[trigger] s[k]).1 < bound,
    ensures
        forall|k: int|
            0 <= k < sort_matched(s).len() ==> (#[trigger] sort_matched(s)[k]).1 < bound,
    decreases s.len(),
{
    if s.len() > 0 {
        lemma_sort_matched_all(s.drop_last(), bound);
        lemma_insert_sorted_all(sort_matched(s.drop_last()), s.last(), bound);
    }
}

/// Resolves an element's specified values against the whole stylesheet.
pub fn specified_values(elem: &ElementData, stylesheet: &Stylesheet) -> (r: PropertyMap)
    ensures
        r.entries@ == cascade_entries(*elem, stylesheet.rules@),
{
    let matched = matching_rules(elem, stylesheet);
    let mut sorted: Vec<MatchedRule> = Vec::new();
    let mut k: usize = 0;
    proof {
        assert(matched@.subrange(0, 0) =~= Seq::<MatchedRule>::empty());
    }
    while k < matched.len()
        invariant
            0 <= k <= matched@.len(),
            sorted@ == sort_matched(matched@.subrange(0, k as int)),
        decreases matched@.len() - k,
    {
        proof {
            let pre = matched@.subrange(0, k as int + 1);
            assert(pre.drop_last() =~= matched@.subrange(0, k as int));
            assert(pre.last() == matched@[k as int]);
        }
        insert_by_order(&mut sorted, matched[k]);
        k = k + 1;
    }
    proof {
        assert(matched@.subrange(0, matched@.len() as int) =~= matched@);
        lemma_matching_rules_idx(*elem, stylesheet.rules@);
        lemma_sort_matched_all(matched@, stylesheet.rules@.len() as int);
    }
    let mut values = PropertyMap::new();
    let mut i: usize = 0;
    proof {
        assert(sorted@.subrange(0, 0) =~= Seq::<MatchedRule>::empty());
        assert(values.entries@ =~= apply_sorted(stylesheet.rules@, sorted@.subrange(0, 0)));
    }
    while i < sorted.len()
        invariant
            0 <= i <= sorted@.len(),
            sorted@ == sort_matched(matching_rules_spec(*elem, stylesheet.rules@)),
            forall|k2: int| 0 <= k2 < sorted@.len() ==> (#[trigger] sorted@[k2]).1 < stylesheet.rules@.len(),
            values.entries@ == apply_sorted(stylesheet.rules@, sorted@.subrange(0, i as int)),
        decreases sorted@.len() - i,
    {
        let ri = sorted[i].1;
        let rule = &stylesheet.rules[ri];
        let nd = rule.declarations.len();
        let mut d: usize = 0;
        while d < nd
            invariant
                0 <= d <= nd,
                0 <= i < sorted@.len(),
                nd == rule.declarations@.len(),
                rule == &stylesheet.rules@[sorted@[i as int].1 as int],
                values.entries@ == apply_sorted(stylesheet.rules@, sorted@.subrange(0, i as int))
                    + decl_pairs(rule.declarations@.subrange(0, d as int)),
            decreases nd - d,
        {
            let declaration = &rule.declarations[d];
            values.insert(declaration.name.clone(), declaration.value.duplicate());
            proof {
                assert(decl_pairs(rule.declarations@.subrange(0, d as int + 1)) =~= decl_pairs(
                    rule.declarations@.subrange(0, d as int),
                ).push((rule.declarations@[d as int].name, rule.declarations@[d as int].value)));
            }
            d = d + 1;
        }
        proof {
            let pre = sorted@.subrange(0, i as int + 1);
            assert(pre.drop_last() =~= sorted@.subrange(0, i as int));
            assert(pre.last() == sorted@[i as int]);
            assert(rule.declarations@.subrange(0, nd as int) =~= rule.declarations@);
        }
        i = i + 1;
    }
    proof {
        assert(sorted@.subrange(0, sorted@.len() as int) =~= sorted@);
    }
    values
}

/// A styled tree mirrors the document tree: an element carries its
/// cascade result, a text node an empty mapping, and the children line up
/// one for one.
pub open spec fn styled(node: Node, sheet: Stylesheet, sn: StyledNode) -> bool
    decreases node,
{
    &&& sn.specified_values.entries@ == (match node.node_type {
        NodeType::Element(ed) => cascade_entries(ed, sheet.rules@),
        NodeType::Text(_) => Seq::<(String, Value)>::empty(),
    })
    &&& sn.children@.len() == node.children@.len()
    &&& forall|i: int|
        0 <= i < node.children@.len() ==> styled(
            #[trigger] node.children@[i],
            sheet,
            sn.children@[i],
        )
}

/// Builds the styled tree for a document tree and a stylesheet.
pub fn style_tree(root: &Node, stylesheet: &Stylesheet) -> (sn: StyledNode)
    ensures
        styled(*root, *stylesheet, sn),
    decreases *root,
{
    let values = match &root.node_type {
        NodeType::Element(ed) => specified_values(ed, stylesheet),
        NodeType::Text(_) => PropertyMap::new(),
    };
    let mut kids: Vec<StyledNode> = Vec::new();
    let mut i: usize = 0;
    while i < root.children.len()
        invariant
            0 <= i <= root.children@.len(),
            kids@.len() == i,
            forall|j: int|
                0 <= j < i ==> styled(#[trigger] root.children@[j], *stylesheet, kids@[j]),
        decreases root.children@.len() - i,
    {
        let child = style_tree(&root.children[i], stylesheet);
        kids.push(child);
        i = i + 1;
    }
    StyledNode { specified_values: values, children: kids }
}

/// Looking a name up in concatenated entries finds the later block's
/// binding first.
pub proof fn lemma_prop_get_concat(a: Seq<(String, Value)>, b: Seq<(String, Value)>, name: Seq<char>)
    ensures
        prop_get(a + b, name) == (if prop_get(b, name) is Some {
            prop_get(b, name)
        } else {
            prop_get(a, name)
        }),
    decreases b.len(),
{
    if b.len() == 0 {
        assert(a + b =~= a);
    } else {
        assert((a + b).last() == b.last());
        assert((a + b).drop_last() =~= a + b.drop_last());
        lemma_prop_get_concat(a, b.drop_last(), name);
    }
}

/// Cascade tie-break: in a stylesheet of two rules of equal specificity
/// that both match an element, the later rule wins — whatever it
/// declares for a property is that property's resolved value.
pub proof fn lemma_cascade_tie_break(el: ElementData, r0: Rule, r1: Rule, p: Seq<char>)
    requires
        match_rule_spec(el, r0.selectors@) == match_rule_spec(el, r1.selectors@),
        match_rule_spec(el, r0.selectors@) is Some,
        prop_get(decl_pairs(r1.declarations@), p) is Some,
    ensures
        prop_get(cascade_entries(el, seq![r0, r1]), p) == prop_get(decl_pairs(r1.declarations@), p),
{
    let rules = seq![r0, r1];
    let s = match_rule_spec(el, r0.selectors@)->Some_0;
    let none_rules = Seq::<Rule>::empty();
    assert(matching_rules_spec(el, none_rules) =~= Seq::<MatchedRule>::empty());
    assert(rules.drop_last() =~= seq![r0]);
    assert(seq![r0].drop_last() == none_rules) by {
        assert(seq![r0].drop_last() =~= none_rules);
    }
    let m1 = matching_rules_spec(el, seq![r0]);
    assert(seq![r0].last() == r0);
    assert(m1 =~= seq![(s, 0usize)]);
    let m = matching_rules_spec(el, rules);
    assert(rules.last() == r1);
    assert(m == matching_rules_spec(el, rules.drop_last()) + seq![(s, 1usize)]);
    assert(m =~= seq![(s, 0usize), (s, 1usize)]);
    assert(sort_matched(Seq::<MatchedRule>::empty()) =~= Seq::<MatchedRule>::empty());
    assert(insert_sorted(Seq::<MatchedRule>::empty(), (s, 0usize)) =~= seq![(s, 0usize)]);
    assert(m.drop_last() =~= seq![(s, 0usize)]);
    assert(m.drop_last().drop_last() =~= Seq::<MatchedRule>::empty());
    assert(sort_matched(m.drop_last()) =~= seq![(s, 0usize)]);
    let sorted = sort_matched(m);
    assert(rule_le((s, 0usize), (s, 1usize)));
    assert(insert_sorted(seq![(s, 0usize)], (s, 1usize)) =~= seq![(s, 0usize), (s, 1usize)]);
    assert(sorted =~= seq![(s, 0usize), (s, 1usize)]);
    assert(apply_sorted(rules, Seq::<MatchedRule>::empty()) =~= Seq::<(String, Value)>::empty());
    assert(sorted.drop_last() =~= seq![(s, 0usize)]);
    assert(sorted.drop_last().drop_last() =~= Seq::<MatchedRule>::empty());
    assert(rules[0] == r0);
    assert(rules[1] == r1);
    assert(apply_sorted(rules, seq![(s, 0usize)]) =~= decl_pairs(r0.declarations@));
    let entries = cascade_entries(el, rules);
    assert(entries =~= decl_pairs(r0.declarations@) + decl_pairs(r1.declarations@));
    lemma_prop_get_concat(decl_pairs(r0.declarations@), decl_pairs(r1.declarations@), p);
}

} // verus!
