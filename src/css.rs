//! Style rules, the per-frame style sheet that interns them, and the text
//! that layout values take in an inline style.
use crate::layout::{Alignment, Length, Padding};
use std::collections::HashMap;
use vstd::prelude::*;
use vstd::string::StringExecFns;

verus! {

broadcast use vstd::std_specs::hash::group_hash_axioms;

// ---------------------------------------------------------------------------
// Decimal text of integers

/// The text of one decimal digit.
pub open spec fn digit(d: nat) -> Seq<char> {
    if d == 0 {
        "0"@
    } else if d == 1 {
        "1"@
    } else if d == 2 {
        "2"@
    } else if d == 3 {
        "3"@
    } else if d == 4 {
        "4"@
    } else if d == 5 {
        "5"@
    } else if d == 6 {
        "6"@
    } else if d == 7 {
        "7"@
    } else if d == 8 {
        "8"@
    } else {
        "9"@
    }
}

/// The decimal text of `n`, without sign or leading zeros.
pub open spec fn decimal(n: nat) -> Seq<char>
    decreases n,
{
    if n < 10 {
        digit(n)
    } else {
        decimal(n / 10) + digit(n % 10)
    }
}

proof fn lemma_digit_facts(d: nat, e: nat)
    requires
        d < 10,
        e < 10,
    ensures
        digit(d).len() == 1,
        digit(d) == digit(e) ==> d == e,
{
    reveal_strlit("0");
    reveal_strlit("1");
    reveal_strlit("2");
    reveal_strlit("3");
    reveal_strlit("4");
    reveal_strlit("5");
    reveal_strlit("6");
    reveal_strlit("7");
    reveal_strlit("8");
    reveal_strlit("9");
    if digit(d) == digit(e) {
        assert(digit(d)[0] == digit(e)[0]);
    }
}

proof fn lemma_decimal_len(n: nat)
    ensures
        decimal(n).len() >= 1,
        n >= 10 ==> decimal(n).len() >= 2,
    decreases n,
{
    lemma_digit_facts(n % 10, 0);
    if n >= 10 {
        lemma_decimal_len(n / 10);
    }
}

/// Two numbers with the same decimal text are equal.
pub proof fn lemma_decimal_injective(a: nat, b: nat)
    requires
        decimal(a) == decimal(b),
    ensures
        a == b,
    decreases a,
{
    lemma_decimal_len(a);
    lemma_decimal_len(b);
    if a < 10 && b < 10 {
        lemma_digit_facts(a, b);
    } else if a >= 10 && b >= 10 {
        let pa = decimal(a / 10);
        let pb = decimal(b / 10);
        lemma_digit_facts(a % 10, b % 10);
        lemma_digit_facts(b % 10, a % 10);
        assert(decimal(a).len() == pa.len() + 1);
        assert(decimal(b).len() == pb.len() + 1);
        assert(pa =~= decimal(a).subrange(0, pa.len() as int));
        assert(pb =~= decimal(b).subrange(0, pb.len() as int));
        assert(digit(a % 10) =~= decimal(a).subrange(pa.len() as int, decimal(a).len() as int));
        assert(digit(b % 10) =~= decimal(b).subrange(pb.len() as int, decimal(b).len() as int));
        lemma_decimal_injective(a / 10, b / 10);
    } else {
        lemma_digit_facts(a % 10, 0);
        lemma_digit_facts(b % 10, 0);
    }
}

fn write_digit(out: &mut String, d: u64)
    requires
        d < 10,
    ensures
        final(out)@ == old(out)@ + digit(d as nat),
{
    if d == 0 {
        out.append("0");
    } else if d == 1 {
        out.append("1");
    } else if d == 2 {
        out.append("2");
    } else if d == 3 {
        out.append("3");
    } else if d == 4 {
        out.append("4");
    } else if d == 5 {
        out.append("5");
    } else if d == 6 {
        out.append("6");
    } else if d == 7 {
        out.append("7");
    } else if d == 8 {
        out.append("8");
    } else {
        out.append("9");
    }
}

/// Appends the decimal text of `n` to `out`.
pub fn write_decimal(out: &mut String, n: u64)
    ensures
        final(out)@ == old(out)@ + decimal(n as nat),
    decreases n,
{
    if n < 10 {
        write_digit(out, n);
    } else {
        let ghost before = out@;
        write_decimal(out, n / 10);
        write_digit(out, n % 10);
        assert(out@ =~= before + decimal(n as nat));
    }
}

// ---------------------------------------------------------------------------
// Text of layout values in an inline style

/// The style text of a length.
pub open spec fn length_text(l: Length) -> Seq<char> {
    match l {
        Length::Fill => "100%"@,
        Length::Shrink => "auto"@,
        Length::Units(px) => decimal(px as nat) + "px"@,
    }
}

/// The style text of a maximum size; the largest `u32` means no limit.
pub open spec fn max_length_text(units: u32) -> Seq<char> {
    if units == u32::MAX {
        "none"@
    } else {
        decimal(units as nat) + "px"@
    }
}

/// The style text of a padding: top, right, bottom and left, in that order.
pub open spec fn padding_text(p: Padding) -> Seq<char> {
    decimal(p.top as nat) + "px "@ + decimal(p.right as nat) + "px "@ + decimal(p.bottom as nat)
        + "px "@ + decimal(p.left as nat) + "px"@
}

/// The style text of a cross-axis alignment.
pub open spec fn alignment_text(a: Alignment) -> Seq<char> {
    match a {
        Alignment::Start => "flex-start"@,
        Alignment::Center => "center"@,
        Alignment::End => "flex-end"@,
    }
}

/// Formats a length for an inline style.
pub fn length(l: Length) -> (r: String)
    ensures
        r@ == length_text(l),
{
    match l {
        Length::Fill => String::from_str("100%"),
        Length::Shrink => String::from_str("auto"),
        Length::Units(px) => {
            let mut s = String::new();
            write_decimal(&mut s, px as u64);
            s.append("px");
            s
        },
    }
}

/// Formats a maximum size for an inline style.
pub fn max_length(units: u32) -> (r: String)
    ensures
        r@ == max_length_text(units),
{
    if units == u32::MAX {
        String::from_str("none")
    } else {
        let mut s = String::new();
        write_decimal(&mut s, units as u64);
        s.append("px");
        s
    }
}

/// Formats a padding for an inline style.
pub fn padding(p: Padding) -> (r: String)
    ensures
        r@ == padding_text(p),
{
    let mut s = String::new();
    write_decimal(&mut s, p.top as u64);
    s.append("px ");
    write_decimal(&mut s, p.right as u64);
    s.append("px ");
    write_decimal(&mut s, p.bottom as u64);
    s.append("px ");
    write_decimal(&mut s, p.left as u64);
    s.append("px");
    s
}

/// Formats a cross-axis alignment for an inline style.
pub fn alignment(a: Alignment) -> (r: String)
    ensures
        r@ == alignment_text(a),
{
    match a {
        Alignment::Start => String::from_str("flex-start"),
        Alignment::Center => String::from_str("center"),
        Alignment::End => String::from_str("flex-end"),
    }
}

// ---------------------------------------------------------------------------
// Style rules and the style sheet

/// A structural description of a style rule. Equal rules are the same rule.
#[derive(Clone, Copy, Debug, PartialEq, Eq, Structural)]
pub enum Rule {
    /// Lay the children out in a row.
    Row,
    /// Put the given number of units between consecutive children.
    Spacing(u16),
}

/// The integer that stands for a rule in the sheet's lookup table.
pub open spec fn rule_key(r: Rule) -> u32 {
    match r {
        Rule::Row => 0,
        Rule::Spacing(n) => (n + 1) as u32,
    }
}

impl Rule {
    /// The lookup key of the rule; distinct rules have distinct keys.
    pub fn key(&self) -> (k: u32)
        ensures
            k == rule_key(*self),
    {
        match self {
            Rule::Row => 0,
            Rule::Spacing(n) => *n as u32 + 1,
        }
    }
}

/// The class name of the rule interned at position `i`.
pub open spec fn class_name(i: nat) -> Seq<char> {
    "c"@ + decimal(i)
}

/// The sheet `s` after interning `r`: unchanged if `r` is known, else `r`
/// appended as the newest rule.
pub open spec fn intern(s: Seq<Rule>, r: Rule) -> Seq<Rule> {
    if s.contains(r) {
        s
    } else {
        s.push(r)
    }
}

/// The position of `r` in `s` (its last occurrence; 0 where it is absent).
pub open spec fn position(s: Seq<Rule>, r: Rule) -> nat
    decreases s.len(),
{
    if s.len() == 0 {
        0
    } else if s.last() == r {
        (s.len() - 1) as nat
    } else {
        position(s.drop_last(), r)
    }
}

/// The identifier that sheet `s` gives to rule `r`.
pub open spec fn class_of(s: Seq<Rule>, r: Rule) -> Seq<char> {
    class_name(position(s, r))
}

/// In a sheet without repeated rules, the position of the rule at `i` is `i`.
pub proof fn lemma_position_at(s: Seq<Rule>, i: int)
    requires
        s.no_duplicates(),
        0 <= i < s.len(),
    ensures
        position(s, s[i]) == i,
    decreases s.len(),
{
    if i < s.len() - 1 {
        assert(s.drop_last()[i] == s[i]);
        lemma_position_at(s.drop_last(), i);
    }
}

/// Interning keeps the rules of a sheet without repeats, and puts `r` in it.
pub proof fn lemma_intern_facts(s: Seq<Rule>, r: Rule)
    requires
        s.no_duplicates(),
    ensures
        intern(s, r).no_duplicates(),
        intern(s, r).contains(r),
        intern(s, r)[position(intern(s, r), r) as int] == r,
        position(intern(s, r), r) < intern(s, r).len(),
        forall|i: int| 0 <= i < s.len() ==> #[trigger] intern(s, r)[i] == s[i],
        s.len() <= intern(s, r).len() <= s.len() + 1,
{
    let t = intern(s, r);
    if !s.contains(r) {
        assert(t.last() == r);
        assert forall|i: int, j: int| 0 <= i < t.len() && 0 <= j < t.len() && i != j implies t[i]
            != t[j] by {
            if i == s.len() && j < s.len() {
                assert(s.contains(s[j]));
            } else if j == s.len() && i < s.len() {
                assert(s.contains(s[i]));
            }
        }
        lemma_position_at(t, s.len() as int);
    } else {
        let k = choose|k: int| 0 <= k < s.len() && s[k] == r;
        lemma_position_at(s, k);
    }
}

/// The sheet `s` after interning `r` `k` times in a row.
pub open spec fn intern_times(s: Seq<Rule>, r: Rule, k: nat) -> Seq<Rule>
    decreases k,
{
    if k == 0 {
        s
    } else {
        intern(intern_times(s, r, (k - 1) as nat), r)
    }
}

/// Distinct positions have distinct class names.
pub proof fn lemma_class_name_injective(a: nat, b: nat)
    requires
        class_name(a) == class_name(b),
    ensures
        a == b,
{
    let p = "c"@;
    assert(decimal(a) =~= class_name(a).subrange(p.len() as int, class_name(a).len() as int));
    assert(decimal(b) =~= class_name(b).subrange(p.len() as int, class_name(b).len() as int));
    lemma_decimal_injective(a, b);
}

/// Inserting the same rule `k >= 1` times leaves the sheet as the first
/// insertion left it, so every insertion returns the same identifier, and the
/// sheet holds the rule exactly once.
pub proof fn lemma_insert_idempotent(s: Seq<Rule>, r: Rule, k: nat)
    requires
        s.no_duplicates(),
        k >= 1,
    ensures
        forall|j: nat| 1 <= j <= k ==> #[trigger] intern_times(s, r, j) == intern(s, r),
        forall|j: nat|
            1 <= j <= k ==> #[trigger] class_of(intern_times(s, r, j), r) == class_of(
                intern(s, r),
                r,
            ),
        intern_times(s, r, k).contains(r),
        forall|i: int, j: int|
            0 <= i < intern_times(s, r, k).len() && 0 <= j < intern_times(s, r, k).len()
                && intern_times(s, r, k)[i] == r && intern_times(s, r, k)[j] == r ==> i == j,
    decreases k,
{
    lemma_intern_facts(s, r);
    if k > 1 {
        lemma_insert_idempotent(s, r, (k - 1) as nat);
        assert(intern_times(s, r, (k - 1) as nat) == intern(s, r));
        assert(intern(intern(s, r), r) == intern(s, r));
        assert forall|j: nat| 1 <= j <= k implies #[trigger] intern_times(s, r, j) == intern(
            s,
            r,
        ) by {
            if j == k {
                assert(intern_times(s, r, j) == intern(intern_times(s, r, (k - 1) as nat), r));
            }
        }
    } else {
        assert forall|j: nat| 1 <= j <= k implies #[trigger] intern_times(s, r, j) == intern(
            s,
            r,
        ) by {
            assert(intern_times(s, r, 0) == s);
        }
    }
}

/// Two distinct rules held by a sheet without repeats have distinct
/// identifiers.
pub proof fn lemma_distinct_rules_distinct_classes(s: Seq<Rule>, r1: Rule, r2: Rule)
    requires
        s.no_duplicates(),
        s.contains(r1),
        s.contains(r2),
        r1 != r2,
    ensures
        class_of(s, r1) != class_of(s, r2),
{
    lemma_intern_facts(s, r1);
    lemma_intern_facts(s, r2);
    if class_of(s, r1) == class_of(s, r2) {
        lemma_class_name_injective(position(s, r1), position(s, r2));
    }
}

/// Interning a rule keeps the identifier of every rule the sheet held.
pub proof fn lemma_intern_keeps_classes(s: Seq<Rule>, r: Rule, q: Rule)
    requires
        s.no_duplicates(),
        s.contains(q),
    ensures
        class_of(intern(s, r), q) == class_of(s, q),
{
    lemma_intern_facts(s, r);
    lemma_intern_facts(s, q);
    let i = position(s, q) as int;
    assert(intern(s, r)[i] == q);
    lemma_position_at(intern(s, r), i);
}

/// The rules of one frame, each with the identifier it was given.
///
/// The `n`-th distinct rule inserted gets the `n`-th identifier, counting
/// from zero; a rule inserted again gets the identifier it has.
pub struct Css {
    rules: Vec<Rule>,
    index: HashMap<u32, usize>,
}

impl View for Css {
    type V = Seq<Rule>;

    /// The distinct rules inserted so far, in the order of first insertion.
    closed spec fn view(&self) -> Seq<Rule> {
        self.rules@
    }
}

impl Css {
    /// The lookup table and the list of rules agree.
    pub closed spec fn wf(&self) -> bool {
        &&& forall|i: int|
            0 <= i < self.rules@.len() ==> {
                &&& #[trigger] self.index@.contains_key(rule_key(self.rules@[i]))
                &&& self.index@[rule_key(self.rules@[i])] == i
            }
        &&& forall|k: u32|
            #[trigger] self.index@.contains_key(k) ==> {
                &&& self.index@[k] < self.rules@.len()
                &&& rule_key(self.rules@[self.index@[k] as int]) == k
            }
    }

    /// The rules of a well-formed sheet are distinct.
    pub proof fn lemma_distinct(&self)
        requires
            self.wf(),
        ensures
            self@.no_duplicates(),
    {
        assert forall|i: int, j: int|
            0 <= i < self@.len() && 0 <= j < self@.len() && i != j implies self@[i]
            != self@[j] by {
            assert(self.index@.contains_key(rule_key(self.rules@[i])));
            assert(self.index@.contains_key(rule_key(self.rules@[j])));
        }
    }

    /// An empty sheet.
    pub fn new() -> (r: Css)
        ensures
            r.wf(),
            r@ == Seq::<Rule>::empty(),
    {
        Css { rules: Vec::new(), index: HashMap::new() }
    }

    /// The number of distinct rules in the sheet.
    pub fn len(&self) -> (r: usize)
        ensures
            r == self@.len(),
    {
        self.rules.len()
    }

    /// The distinct rules in the order in which they were first inserted;
    /// the rule at position `i` has identifier `class(i)`.
    pub fn rules(&self) -> (r: &Vec<Rule>)
        ensures
            r@ == self@,
    {
        &self.rules
    }

    /// The identifier of the rule at position `i`: `c` followed by the decimal
    /// text of `i`.
    pub fn class(i: usize) -> (r: String)
        ensures
            r@ == class_name(i as nat),
    {
        let mut s = String::from_str("c");
        write_decimal(&mut s, i as u64);
        s
    }

    /// Interns `rule` and returns its identifier. A known rule keeps the
    /// identifier it has and the sheet is unchanged; a new one is appended and
    /// gets the next identifier.
    pub fn insert(&mut self, rule: Rule) -> (r: String)
        requires
            old(self).wf(),
        ensures
            final(self).wf(),
            final(self)@ == intern(old(self)@, rule),
            r@ == class_of(final(self)@, rule),
            old(self)@.contains(rule) ==> r@ == class_of(old(self)@, rule),
            !old(self)@.contains(rule) ==> r@ == class_name(old(self)@.len()),
    {
        proof {
            self.lemma_distinct();
            lemma_intern_facts(self@, rule);
        }
        let key = rule.key();
        match self.index.get(&key) {
            Some(i) => {
                let i = *i;
                proof {
                    lemma_position_at(self@, i as int);
                    assert(self@.contains(rule));
                }
                Css::class(i)
            },
            None => {
                proof {
                    if self@.contains(rule) {
                        let k = choose|k: int| 0 <= k < self@.len() && self@[k] == rule;
                        assert(self.index@.contains_key(rule_key(self.rules@[k])));
                    }
                }
                let i = self.rules.len();
                self.rules.push(rule);
                self.index.insert(key, i);
                proof {
                    assert(self@ == intern(old(self)@, rule));
                    lemma_position_at(self@, i as int);
                    assert forall|k: u32| #[trigger] self.index@.contains_key(k) implies {
                        &&& self.index@[k] < self.rules@.len()
                        &&& rule_key(self.rules@[self.index@[k] as int]) == k
                    } by {
                        if k != key {
                            assert(old(self).index@.contains_key(k));
                        }
                    }
                    assert forall|j: int| 0 <= j < self.rules@.len() implies {
                        &&& #[trigger] self.index@.contains_key(rule_key(self.rules@[j]))
                        &&& self.index@[rule_key(self.rules@[j])] == j
                    } by {
                        if j < i {
                            assert(old(self).index@.contains_key(rule_key(old(self).rules@[j])));
                            assert(old(self).rules@[j] != rule);
                        }
                    }
                }
                Css::class(i)
            },
        }
    }
}

} // verus!
