//! Widgets and how a frame renders them: the type-erased element, the text
//! leaf and the horizontal container.
use crate::css::{
    alignment, alignment_text, class_of, intern, length, length_text, max_length,
    max_length_text, padding, padding_text, position, Css, Rule,
};
use crate::layout::{Alignment, Length, Padding};
use crate::node::Node;
use vstd::prelude::*;
use vstd::string::StringExecFns;

verus! {

/// A leaf widget that shows a run of text.
pub struct Text {
    content: String,
}

impl View for Text {
    type V = Seq<char>;

    /// The text shown.
    closed spec fn view(&self) -> Seq<char> {
        self.content@
    }
}

impl Text {
    /// A text widget that shows `content`.
    pub fn new(content: &str) -> (r: Text)
        ensures
            r@ == content@,
    {
        Text { content: String::from_str(content) }
    }
}

/// A handle over one widget of any kind, owned by the container that holds
/// it.
pub enum Element {
    Row(Row),
    Text(Text),
}

/// A container that lays its children out horizontally.
pub struct Row {
    spacing: u16,
    padding: Padding,
    width: Length,
    height: Length,
    max_width: u32,
    max_height: u32,
    align_items: Alignment,
    children: Vec<Element>,
}

/// The configuration of a row as plain values.
pub struct RowModel {
    pub spacing: u16,
    pub padding: Padding,
    pub width: Length,
    pub height: Length,
    pub max_width: u32,
    pub max_height: u32,
    pub align_items: Alignment,
    pub children: Seq<Element>,
}

impl View for Row {
    type V = RowModel;

    closed spec fn view(&self) -> RowModel {
        RowModel {
            spacing: self.spacing,
            padding: self.padding,
            width: self.width,
            height: self.height,
            max_width: self.max_width,
            max_height: self.max_height,
            align_items: self.align_items,
            children: self.children@,
        }
    }
}

/// The inline style of a row: width, height, max-width, max-height, padding
/// and align-items, always in that order.
pub open spec fn style_text(m: RowModel) -> Seq<char> {
    "width: "@ + length_text(m.width) + "; height: "@ + length_text(m.height) + "; max-width: "@
        + max_length_text(m.max_width) + "; max-height: "@ + max_length_text(m.max_height)
        + "; padding: "@ + padding_text(m.padding) + "; align-items: "@ + alignment_text(
        m.align_items,
    )
}

/// Identifiers joined by single spaces, in order.
pub open spec fn class_list(ids: Seq<Seq<char>>) -> Seq<char>
    decreases ids.len(),
{
    if ids.len() == 0 {
        Seq::empty()
    } else if ids.len() == 1 {
        ids[0]
    } else {
        class_list(ids.drop_last()) + " "@ + ids.last()
    }
}

/// Joins identifiers into the text of a class attribute.
pub fn join_classes(ids: &Vec<String>) -> (r: String)
    ensures
        r@ == class_list(ids@.map_values(|s: String| s@)),
{
    let ghost views = ids@.map_values(|s: String| s@);
    let mut out = String::new();
    let mut i: usize = 0;
    while i < ids.len()
        invariant
            i <= ids@.len(),
            views == ids@.map_values(|s: String| s@),
            out@ == class_list(views.subrange(0, i as int)),
        decreases ids.len() - i,
    {
        if i > 0 {
            out.append(" ");
        }
        out.append(ids[i].as_str());
        i = i + 1;
        proof {
            let pre = views.subrange(0, i as int);
            assert(pre.drop_last() =~= views.subrange(0, i - 1));
        }
    }
    assert(views.subrange(0, ids@.len() as int) =~= views);
    out
}

// ---------------------------------------------------------------------------
// What a frame renders

/// The sheet after rendering element `e` into a sheet that was `s`.
pub closed spec fn sheet_after(e: Element, s: Seq<Rule>) -> Seq<Rule>
    decreases e, 0nat,
{
    match e {
        Element::Text(_) => s,
        Element::Row(r) => row_sheet_after(r, s),
    }
}

/// The sheet after rendering row `r` into a sheet that was `s`: its children
/// first, in order, then the row's layout rule, then its spacing rule.
pub closed spec fn row_sheet_after(r: Row, s: Seq<Rule>) -> Seq<Rule>
    decreases r, 0nat,
{
    intern(
        intern(children_sheet(r.children, r.children.len() as nat, s), Rule::Row),
        Rule::Spacing(r.spacing),
    )
}

/// The sheet after rendering the first `k` of `cs` into a sheet that was `s`.
pub closed spec fn children_sheet(cs: Vec<Element>, k: nat, s: Seq<Rule>) -> Seq<Rule>
    decreases cs, k,
{
    if k == 0 || k > cs.len() {
        s
    } else {
        sheet_after(cs[k - 1], children_sheet(cs, (k - 1) as nat, s))
    }
}

/// The sheet that child `i` of row `r` renders into, when the row renders
/// into a sheet that was `s`.
pub closed spec fn sheet_before_child(r: Row, i: nat, s: Seq<Rule>) -> Seq<Rule> {
    children_sheet(r.children, i, s)
}

/// `n` is what element `e` renders to, into a sheet that was `s`.
pub closed spec fn renders(e: Element, n: Node, s: Seq<Rule>) -> bool
    decreases e, 0nat,
{
    match e {
        Element::Text(t) => n == Node::Text(t.content),
        Element::Row(r) => row_renders(r, n, s),
    }
}

/// `n` is what row `r` renders to, into a sheet that was `s`: a `div` whose
/// class attribute names the row's layout rule and spacing rule, whose style
/// attribute is the row's inline style, and whose children are what the
/// row's children render to, in order.
pub closed spec fn row_renders(r: Row, n: Node, s: Seq<Rule>) -> bool
    decreases r, 0nat,
{
    let t = row_sheet_after(r, s);
    &&& n matches Node::Tag { tag, attributes, children }
    &&& tag@ == "div"@
    &&& attributes@.len() == 2
    &&& attributes@[0].0@ == "class"@
    &&& attributes@[0].1@ == class_of(t, Rule::Row) + " "@ + class_of(t, Rule::Spacing(r.spacing))
    &&& attributes@[1].0@ == "style"@
    &&& attributes@[1].1@ == style_text(r@)
    &&& children@.len() == r.children.len()
    &&& children_render(r.children, children@, s)
}

/// `ns` is what the first `ns.len()` elements of `cs` render to, one after
/// the other, starting from a sheet that was `s`.
pub closed spec fn children_render(cs: Vec<Element>, ns: Seq<Node>, s: Seq<Rule>) -> bool
    decreases cs, ns.len(),
{
    if ns.len() == 0 {
        true
    } else {
        &&& ns.len() <= cs.len()
        &&& children_render(cs, ns.drop_last(), s)
        &&& renders(cs[ns.len() - 1], ns.last(), children_sheet(cs, (ns.len() - 1) as nat, s))
    }
}

// ---------------------------------------------------------------------------
// Building rows

/// The configuration of a row that holds `children` and has no other
/// setting changed: no spacing, no padding, fill width, shrink height, no
/// maximum size, children aligned at the start.
pub open spec fn default_row(children: Seq<Element>) -> RowModel {
    RowModel {
        spacing: 0,
        padding: Padding { top: 0, right: 0, bottom: 0, left: 0 },
        width: Length::Fill,
        height: Length::Shrink,
        max_width: u32::MAX,
        max_height: u32::MAX,
        align_items: Alignment::Start,
        children,
    }
}

impl Row {
    /// An empty row.
    pub fn new() -> (r: Row)
        ensures
            r@ == default_row(Seq::empty()),
    {
        Row::with_children(Vec::new())
    }

    /// A row that holds the given elements, in order.
    pub fn with_children(children: Vec<Element>) -> (r: Row)
        ensures
            r@ == default_row(children@),
    {
        Row {
            spacing: 0,
            padding: Padding::zero(),
            width: Length::Fill,
            height: Length::Shrink,
            max_width: u32::MAX,
            max_height: u32::MAX,
            align_items: Alignment::Start,
            children,
        }
    }

    /// Sets the horizontal spacing between consecutive children.
    pub fn spacing(self, units: u16) -> (r: Row)
        ensures
            r@ == (RowModel { spacing: units, ..self@ }),
    {
        Row { spacing: units, ..self }
    }

    /// Sets the padding of the row.
    pub fn padding(self, padding: Padding) -> (r: Row)
        ensures
            r@ == (RowModel { padding: padding, ..self@ }),
    {
        Row { padding: padding, ..self }
    }

    /// Sets the width of the row.
    pub fn width(self, width: Length) -> (r: Row)
        ensures
            r@ == (RowModel { width: width, ..self@ }),
    {
        Row { width: width, ..self }
    }

    /// Sets the height of the row.
    pub fn height(self, height: Length) -> (r: Row)
        ensures
            r@ == (RowModel { height: height, ..self@ }),
    {
        Row { height: height, ..self }
    }

    /// Sets the maximum width of the row; `u32::MAX` means no limit.
    pub fn max_width(self, max_width: u32) -> (r: Row)
        ensures
            r@ == (RowModel { max_width: max_width, ..self@ }),
    {
        Row { max_width: max_width, ..self }
    }

    /// Sets the maximum height of the row; `u32::MAX` means no limit.
    pub fn max_height(self, max_height: u32) -> (r: Row)
        ensures
            r@ == (RowModel { max_height: max_height, ..self@ }),
    {
        Row { max_height: max_height, ..self }
    }

    /// Sets how the children line up vertically.
    pub fn align_items(self, align: Alignment) -> (r: Row)
        ensures
            r@ == (RowModel { align_items: align, ..self@ }),
    {
        Row { align_items: align, ..self }
    }

    /// Appends a child after the ones the row holds.
    pub fn push(self, child: Element) -> (r: Row)
        ensures
            r@ == (RowModel { children: self@.children.push(child), ..self@ }),
    {
        let mut row = self;
        row.children.push(child);
        row
    }
}

impl From<Row> for Element {
    fn from(row: Row) -> (r: Element)
        ensures
            r == Element::Row(row),
    {
        Element::Row(row)
    }
}

impl vstd::std_specs::convert::FromSpecImpl<Row> for Element {
    open spec fn obeys_from_spec() -> bool {
        true
    }

    open spec fn from_spec(row: Row) -> Element {
        Element::Row(row)
    }
}

impl From<Text> for Element {
    fn from(text: Text) -> (r: Element)
        ensures
            r == Element::Text(text),
    {
        Element::Text(text)
    }
}

impl vstd::std_specs::convert::FromSpecImpl<Text> for Element {
    open spec fn obeys_from_spec() -> bool {
        true
    }

    open spec fn from_spec(text: Text) -> Element {
        Element::Text(text)
    }
}

// ---------------------------------------------------------------------------
// Rendering

impl Element {
    /// Renders the element into a node, interning the style rules it uses
    /// into `sheet`.
    pub fn node(&self, sheet: &mut Css) -> (r: Node)
        requires
            old(sheet).wf(),
        ensures
            final(sheet).wf(),
            final(sheet)@ == sheet_after(*self, old(sheet)@),
            renders(*self, r, old(sheet)@),
        decreases *self, 1nat,
    {
        match self {
            Element::Row(row) => row.node(sheet),
            Element::Text(text) => Node::Text(text.content.clone()),
        }
    }
}

impl Row {
    /// The inline style of the row.
    pub fn style(&self) -> (r: String)
        ensures
            r@ == style_text(self@),
    {
        let mut s = String::from_str("width: ");
        s.append(length(self.width).as_str());
        s.append("; height: ");
        s.append(length(self.height).as_str());
        s.append("; max-width: ");
        s.append(max_length(self.max_width).as_str());
        s.append("; max-height: ");
        s.append(max_length(self.max_height).as_str());
        s.append("; padding: ");
        s.append(padding(self.padding).as_str());
        s.append("; align-items: ");
        s.append(alignment(self.align_items).as_str());
        s
    }

    /// Renders the row: its children first, in order, then its own layout
    /// and spacing rules, then one `div` node that wraps the children.
    pub fn node(&self, sheet: &mut Css) -> (r: Node)
        requires
            old(sheet).wf(),
        ensures
            final(sheet).wf(),
            final(sheet)@ == row_sheet_after(*self, old(sheet)@),
            row_renders(*self, r, old(sheet)@),
            r is Tag,
            r->tag@ == "div"@,
            r->attributes@.len() == 2,
            r->attributes@[0].0@ == "class"@,
            r->attributes@[0].1@ == class_of(final(sheet)@, Rule::Row) + " "@ + class_of(
                final(sheet)@,
                Rule::Spacing(self@.spacing),
            ),
            r->attributes@[1].0@ == "style"@,
            r->attributes@[1].1@ == style_text(self@),
            r->children@.len() == self@.children.len(),
            forall|i: int|
                0 <= i < self@.children.len() ==> #[trigger] renders(
                    self@.children[i],
                    r->children@[i],
                    sheet_before_child(*self, i as nat, old(sheet)@),
                ),
        decreases *self, 1nat,
    {
        let ghost s0 = sheet@;
        let mut nodes: Vec<Node> = Vec::new();
        let mut i: usize = 0;
        while i < self.children.len()
            invariant
                sheet.wf(),
                i <= self.children.len(),
                nodes@.len() == i,
                sheet@ == children_sheet(self.children, i as nat, s0),
                children_render(self.children, nodes@, s0),
            decreases self.children.len() - i,
        {
            let ghost before = nodes@;
            let n = self.children[i].node(sheet);
            nodes.push(n);
            i = i + 1;
            proof {
                assert(nodes@.drop_last() =~= before);
            }
        }
        let ghost t0 = sheet@;
        proof {
            sheet.lemma_distinct();
        }
        let row_class = sheet.insert(Rule::Row);
        let ghost t1 = sheet@;
        let spacing_class = sheet.insert(Rule::Spacing(self.spacing));
        proof {
            crate::css::lemma_intern_facts(t0, Rule::Row);
            crate::css::lemma_intern_facts(t1, Rule::Spacing(self.spacing));
            crate::css::lemma_intern_keeps_classes(t1, Rule::Spacing(self.spacing), Rule::Row);
        }
        let mut ids: Vec<String> = Vec::new();
        ids.push(row_class);
        ids.push(spacing_class);
        let class = join_classes(&ids);
        proof {
            let views = ids@.map_values(|s: String| s@);
            assert(views.drop_last() =~= seq![views[0]]);
            assert(class_list(views.drop_last()) == views[0]);
        }
        let mut attributes: Vec<(String, String)> = Vec::new();
        attributes.push((String::from_str("class"), class));
        attributes.push((String::from_str("style"), self.style()));
        let r = Node::Tag { tag: String::from_str("div"), attributes, children: nodes };
        proof {
            lemma_row_render_facts(*self, r, s0);
        }
        r
    }
}

/// Renders one frame: a fresh, empty style sheet, then the root element into
/// it. Returns the root's node and the sheet with every rule the frame used.
pub fn render(root: &Element) -> (r: (Node, Css))
    ensures
        r.1.wf(),
        r.1@ == sheet_after(*root, Seq::empty()),
        renders(*root, r.0, Seq::empty()),
{
    let mut sheet = Css::new();
    let node = root.node(&mut sheet);
    (node, sheet)
}

// ---------------------------------------------------------------------------
// Laws of rendering

proof fn lemma_children_render_index(cs: Vec<Element>, ns: Seq<Node>, s: Seq<Rule>)
    requires
        children_render(cs, ns, s),
    ensures
        ns.len() <= cs.len(),
        forall|i: int|
            0 <= i < ns.len() ==> #[trigger] renders(cs@[i], ns[i], children_sheet(cs, i as nat, s)),
    decreases ns.len(),
{
    if ns.len() > 0 {
        lemma_children_render_index(cs, ns.drop_last(), s);
        assert forall|i: int| 0 <= i < ns.len() implies #[trigger] renders(
            cs@[i],
            ns[i],
            children_sheet(cs, i as nat, s),
        ) by {
            if i < ns.len() - 1 {
                assert(ns.drop_last()[i] == ns[i]);
            }
        }
    }
}

/// What a rendered row is: a `div` whose class attribute names the row's
/// layout rule and then its spacing rule, as identified by the sheet after the
/// row was rendered, whose style attribute is the row's inline style, and
/// whose children are, in order, what the row's children render to, each
/// into the sheet that the children before it left.
pub proof fn lemma_row_render_facts(row: Row, n: Node, s: Seq<Rule>)
    requires
        row_renders(row, n, s),
    ensures
        n is Tag,
        n->tag@ == "div"@,
        n->attributes@.len() == 2,
        n->attributes@[0].0@ == "class"@,
        n->attributes@[0].1@ == class_of(row_sheet_after(row, s), Rule::Row) + " "@ + class_of(
            row_sheet_after(row, s),
            Rule::Spacing(row@.spacing),
        ),
        n->attributes@[1].0@ == "style"@,
        n->attributes@[1].1@ == style_text(row@),
        n->children@.len() == row@.children.len(),
        forall|i: int|
            0 <= i < row@.children.len() ==> #[trigger] renders(
                row@.children[i],
                n->children@[i],
                sheet_before_child(row, i as nat, s),
            ),
        row_sheet_after(row, s) == intern(
            intern(sheet_before_child(row, row@.children.len(), s), Rule::Row),
            Rule::Spacing(row@.spacing),
        ),
        sheet_before_child(row, 0, s) == s,
{
    lemma_children_render_index(row.children, n->children@, s);
}

/// What an element renders to: a row as the row renders, a text as a text
/// node with the same content.
pub proof fn lemma_renders_unfold(e: Element, n: Node, s: Seq<Rule>)
    ensures
        e matches Element::Row(row) ==> (renders(e, n, s) <==> row_renders(row, n, s)),
        e matches Element::Row(row) ==> sheet_after(e, s) == row_sheet_after(row, s),
        e matches Element::Text(t) ==> (renders(e, n, s) ==> (n matches Node::Text(c) && c@ == t@)),
        e matches Element::Text(_) ==> sheet_after(e, s) == s,
{
}

/// Nesting a row as the sole child of another keeps it whole: the outer node
/// has exactly one child, and that child is the inner row's own node, with
/// the inner row's class and style attributes and as many children as the
/// inner row has.
pub proof fn lemma_nested_row(outer: Row, inner: Row, n: Node, s: Seq<Rule>)
    requires
        outer@.children == seq![Element::Row(inner)],
        row_renders(outer, n, s),
    ensures
        n->children@.len() == 1,
        row_renders(inner, n->children@[0], s),
        n->children@[0] is Tag,
        n->children@[0]->attributes@[0].1@ == class_of(row_sheet_after(inner, s), Rule::Row)
            + " "@ + class_of(row_sheet_after(inner, s), Rule::Spacing(inner@.spacing)),
        n->children@[0]->attributes@[1].1@ == style_text(inner@),
        n->children@[0]->children@.len() == inner@.children.len(),
{
    lemma_row_render_facts(outer, n, s);
    assert(renders(outer@.children[0], n->children@[0], sheet_before_child(outer, 0, s)));
    lemma_row_render_facts(inner, n->children@[0], s);
}

/// `t` holds the rules of `s` at the same positions, perhaps followed by more,
/// and no rule twice.
pub open spec fn grows(s: Seq<Rule>, t: Seq<Rule>) -> bool {
    &&& t.no_duplicates()
    &&& s.len() <= t.len()
    &&& forall|i: int| 0 <= i < s.len() ==> #[trigger] t[i] == s[i]
}

proof fn lemma_sheet_after_grows(e: Element, s: Seq<Rule>)
    requires
        s.no_duplicates(),
    ensures
        grows(s, sheet_after(e, s)),
    decreases e, 0nat,
{
    match e {
        Element::Text(_) => {},
        Element::Row(r) => lemma_row_sheet_grows(r, s),
    }
}

proof fn lemma_row_sheet_grows(r: Row, s: Seq<Rule>)
    requires
        s.no_duplicates(),
    ensures
        grows(s, row_sheet_after(r, s)),
    decreases r, 0nat,
{
    let c = children_sheet(r.children, r.children.len() as nat, s);
    lemma_children_sheet_grows(r.children, r.children.len() as nat, s);
    crate::css::lemma_intern_facts(c, Rule::Row);
    crate::css::lemma_intern_facts(intern(c, Rule::Row), Rule::Spacing(r.spacing));
}

proof fn lemma_children_sheet_grows(cs: Vec<Element>, k: nat, s: Seq<Rule>)
    requires
        s.no_duplicates(),
    ensures
        grows(s, children_sheet(cs, k, s)),
    decreases cs, k,
{
    if k > 0 && k <= cs.len() {
        let prev = children_sheet(cs, (k - 1) as nat, s);
        lemma_children_sheet_grows(cs, (k - 1) as nat, s);
        lemma_sheet_after_grows(cs[k - 1], prev);
    }
}

/// Within one frame an identifier, once given to a rule, keeps naming that
/// rule: rendering any element leaves the identifier of every rule the sheet
/// already held as it was. So sibling rows with equal rules share their
/// identifiers.
pub proof fn lemma_render_keeps_classes(e: Element, s: Seq<Rule>, q: Rule)
    requires
        s.no_duplicates(),
        s.contains(q),
    ensures
        sheet_after(e, s).contains(q),
        class_of(sheet_after(e, s), q) == class_of(s, q),
{
    let t = sheet_after(e, s);
    lemma_sheet_after_grows(e, s);
    let k = choose|k: int| 0 <= k < s.len() && s[k] == q;
    crate::css::lemma_position_at(s, k);
    assert(t[k] == q);
    crate::css::lemma_position_at(t, k);
}

/// Two sibling rows with the same spacing, rendered in one frame, get the same
/// class attribute: the same layout identifier and the same spacing
/// identifier.
pub proof fn lemma_siblings_share_classes(parent: Row, a: Row, b: Row, n: Node, s: Seq<Rule>)
    requires
        s.no_duplicates(),
        parent@.children == seq![Element::Row(a), Element::Row(b)],
        a@.spacing == b@.spacing,
        row_renders(parent, n, s),
    ensures
        n->children@.len() == 2,
        n->children@[0] is Tag,
        n->children@[1] is Tag,
        n->children@[0]->attributes@[0].1@ == n->children@[1]->attributes@[0].1@,
{
    lemma_row_render_facts(parent, n, s);
    let s0 = sheet_before_child(parent, 0, s);
    let s1 = sheet_before_child(parent, 1, s);
    assert(renders(parent@.children[0], n->children@[0], s0));
    assert(renders(parent@.children[1], n->children@[1], s1));
    lemma_row_render_facts(a, n->children@[0], s0);
    lemma_row_render_facts(b, n->children@[1], s1);
    let ta = row_sheet_after(a, s0);
    lemma_row_sheet_grows(a, s0);
    assert(s1 == sheet_after(Element::Row(a), s0));
    let c = sheet_before_child(a, a@.children.len(), s0);
    lemma_children_sheet_grows(a.children, a.children.len() as nat, s0);
    crate::css::lemma_intern_facts(c, Rule::Row);
    crate::css::lemma_intern_facts(intern(c, Rule::Row), Rule::Spacing(a@.spacing));
    assert(ta.contains(Rule::Row)) by {
        let i = position(intern(c, Rule::Row), Rule::Row) as int;
        assert(ta[i] == Rule::Row);
    }
    lemma_render_keeps_classes(Element::Row(b), s1, Rule::Row);
    lemma_render_keeps_classes(Element::Row(b), s1, Rule::Spacing(a@.spacing));
}

} // verus!
