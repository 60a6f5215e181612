use vstd::prelude::*;
use crate::types::Token;
use crate::text::{
    chars_of, find_chars, find_from, parse_usize, spec_parse_usize, spec_split, spec_trim,
    split_chars, string_from_chars, trim_chars,
};

verus! {

broadcast use vstd::string::group_string_axioms;

/// One alternative of a grammar rule.
pub enum GrammarVariant {
    Literal(String),
    RuleRef(usize),
    Sequence(Vec<usize>),
    Choice(Vec<usize>),
    Repeat(usize, Option<usize>),
    CharClass(Vec<usize>),
}

/// The value a `GrammarVariant` stands for.
pub enum VariantSpec {
    Literal(Seq<char>),
    RuleRef(usize),
    Sequence(Seq<usize>),
    Choice(Seq<usize>),
    Repeat(usize, Option<usize>),
    CharClass(Seq<usize>),
}

impl View for GrammarVariant {
    type V = VariantSpec;

    open spec fn view(&self) -> VariantSpec {
        match self {
            GrammarVariant::Literal(s) => VariantSpec::Literal(s@),
            GrammarVariant::RuleRef(i) => VariantSpec::RuleRef(*i),
            GrammarVariant::Sequence(v) => VariantSpec::Sequence(v@),
            GrammarVariant::Choice(v) => VariantSpec::Choice(v@),
            GrammarVariant::Repeat(a, b) => VariantSpec::Repeat(*a, *b),
            GrammarVariant::CharClass(v) => VariantSpec::CharClass(v@),
        }
    }
}

/// A named rule and its alternatives.
pub struct GrammarRule {
    pub name: String,
    pub variants: Vec<GrammarVariant>,
}

impl View for GrammarRule {
    type V = (Seq<char>, Seq<VariantSpec>);

    open spec fn view(&self) -> (Seq<char>, Seq<VariantSpec>) {
        (self.name@, self.variants@.map_values(|v: GrammarVariant| v@))
    }
}

/// The index of the last name in `names` equal to `s`.
pub open spec fn lookup_name(names: Seq<Seq<char>>, s: Seq<char>) -> Option<nat>
    decreases names.len(),
{
    if names.len() == 0 {
        None
    } else if names.last() == s {
        Some((names.len() - 1) as nat)
    } else {
        lookup_name(names.drop_last(), s)
    }
}

/// The numbers among the comma-separated items of a character class (items that do not
/// read as a `usize` are skipped).
pub open spec fn class_items(pieces: Seq<Seq<char>>) -> Seq<usize>
    decreases pieces.len(),
{
    if pieces.len() == 0 {
        Seq::empty()
    } else {
        let prev = class_items(pieces.drop_last());
        match spec_parse_usize(spec_trim(pieces.last())) {
            Some(v) => prev.push(v),
            None => prev,
        }
    }
}

/// An alternative read from its text, given the names of the rules defined before it: a
/// quoted literal, a bracketed list of numbers, or a reference to the last earlier rule of
/// that name (rule 0 when there is none).
pub open spec fn spec_parse_variant(s0: Seq<char>, names: Seq<Seq<char>>) -> VariantSpec {
    let s = spec_trim(s0);
    if s.len() > 0 && s[0] == '"' && s.last() == '"' {
        VariantSpec::Literal(s.subrange(1, s.len() - 1))
    } else if s.len() > 0 && s[0] == '[' && s.last() == ']' {
        VariantSpec::CharClass(class_items(spec_split(s.subrange(1, s.len() - 1), ',')))
    } else {
        match lookup_name(names, s) {
            Some(i) => VariantSpec::RuleRef(i as usize),
            None => VariantSpec::RuleRef(0),
        }
    }
}

/// The alternatives of a rule body: its `|`-separated pieces, each trimmed and read.
pub open spec fn spec_variants(def: Seq<char>, names: Seq<Seq<char>>) -> Seq<VariantSpec> {
    spec_split(def, '|').map_values(|p: Seq<char>| spec_parse_variant(spec_trim(p), names))
}

/// The rule a line defines, if any: blank lines, `#` comments and lines without `::=` define
/// none; otherwise the name is the trimmed text before the first `::=` and the body the
/// trimmed text after it.
pub open spec fn line_rule(line: Seq<char>, names: Seq<Seq<char>>) -> Option<(Seq<char>, Seq<VariantSpec>)> {
    let t = spec_trim(line);
    if t.len() == 0 || t[0] == '#' {
        None
    } else {
        match find_from(t, "::="@, 0) {
            None => None,
            Some(p) => Some(
                (
                    spec_trim(t.subrange(0, p)),
                    spec_variants(spec_trim(t.subrange(p + 3, t.len() as int)), names),
                ),
            ),
        }
    }
}

/// The rules that the lines define, in order.
pub open spec fn rules_of_lines(lines: Seq<Seq<char>>) -> Seq<(Seq<char>, Seq<VariantSpec>)>
    decreases lines.len(),
{
    if lines.len() == 0 {
        Seq::empty()
    } else {
        let prev = rules_of_lines(lines.drop_last());
        match line_rule(lines.last(), prev.map_values(|r: (Seq<char>, Seq<VariantSpec>)| r.0)) {
            Some(r) => prev.push(r),
            None => prev,
        }
    }
}

/// The rules of a grammar text (lines are its `\n`-separated pieces; a trailing `\r` of a
/// line is whitespace and falls to the trim).
pub open spec fn spec_grammar_rules(text: Seq<char>) -> Seq<(Seq<char>, Seq<VariantSpec>)> {
    rules_of_lines(spec_split(text, '\n'))
}

/// A rule body none of whose alternatives is a lone `"` (on which reading panics).
pub open spec fn body_ok(def: Seq<char>) -> bool {
    forall|i: int| 0 <= i < spec_split(def, '|').len() ==> spec_trim(spec_trim(#[trigger] spec_split(def, '|')[i])) != seq!['"']
}

/// A line that reads without a panic.
pub open spec fn line_ok(line: Seq<char>) -> bool {
    let t = spec_trim(line);
    t.len() == 0 || t[0] == '#' || match find_from(t, "::="@, 0) {
        None => true,
        Some(p) => body_ok(spec_trim(t.subrange(p + 3, t.len() as int))),
    }
}

/// A grammar text that reads without a panic.
pub open spec fn grammar_text_ok(text: Seq<char>) -> bool {
    forall|i: int| 0 <= i < spec_split(text, '\n').len() ==> line_ok(#[trigger] spec_split(text, '\n')[i])
}

/// A grammar: rules, of which `start_rule` is the start.
pub struct Grammar {
    rules: Vec<GrammarRule>,
    start_rule: usize,
}

/// Which rules of the grammar are active.
struct GrammarState(Vec<bool>);

impl GrammarState {
    fn new(size: usize) -> (s: Self)
        ensures
            s.0@ == Seq::new(size as nat, |i: int| false),
    {
        let mut v: Vec<bool> = Vec::new();
        let mut i: usize = 0;
        while i < size
            invariant
                i <= size,
                v@ == Seq::new(i as nat, |k: int| false),
            decreases size - i,
        {
            v.push(false);
            proof {
                assert(v@ =~= Seq::new((i + 1) as nat, |k: int| false));
            }
            i += 1;
        }
        GrammarState(v)
    }
}

/// An alternative that accepts `token`: a literal whose first character is `token`, or a
/// reference to rule `token`.
pub open spec fn variant_matches(v: VariantSpec, token: usize) -> bool {
    match v {
        VariantSpec::Literal(s) => s.len() > 0 && s[0] as usize == token,
        VariantSpec::RuleRef(i) => i == token,
        _ => false,
    }
}

/// A rule with an alternative that accepts `token`.
pub open spec fn rule_active(rule: (Seq<char>, Seq<VariantSpec>), token: usize) -> bool {
    exists|j: int| 0 <= j < rule.1.len() && variant_matches(#[trigger] rule.1[j], token)
}

/// The tokens an alternative allows: the characters of a literal, the numbers of a class,
/// the rule of a reference.
pub open spec fn variant_tokens(v: VariantSpec) -> Seq<usize> {
    match v {
        VariantSpec::Literal(s) => s.map_values(|c: char| c as usize),
        VariantSpec::CharClass(c) => c,
        VariantSpec::RuleRef(r) => seq![r],
        _ => Seq::empty(),
    }
}

/// The tokens the alternatives of the rules active after `token` allow.
pub open spec fn allowed_after(rules: Seq<(Seq<char>, Seq<VariantSpec>)>, token: usize) -> Set<usize> {
    Set::new(
        |t: usize|
            exists|i: int, j: int|
                0 <= i < rules.len() && rule_active(rules[i], token) && 0 <= j < rules[i].1.len()
                    && #[trigger] variant_tokens(rules[i].1[j]).contains(t),
    )
}

/// The token that decides which rules are active: the earliest of the last ten.
pub open spec fn deciding_token(prev: Seq<Token>) -> Token {
    let k = if prev.len() < 10 { prev.len() } else { 10 };
    prev[prev.len() - k]
}

/// The tokens allowed after `prev`: none before any token was seen.
pub open spec fn spec_allowed_tokens(rules: Seq<(Seq<char>, Seq<VariantSpec>)>, prev: Seq<Token>) -> Set<usize> {
    if prev.len() == 0 {
        Set::empty()
    } else {
        allowed_after(rules, deciding_token(prev) as usize)
    }
}

/// Strictly increasing.
pub open spec fn strictly_sorted(s: Seq<usize>) -> bool {
    forall|i: int, j: int| 0 <= i < j < s.len() ==> s[i] < s[j]
}

/// Inserts `x` into a strictly increasing vector unless it is already there.
fn insert_sorted_unique(v: &mut Vec<usize>, x: usize)
    requires
        strictly_sorted(old(v)@),
    ensures
        strictly_sorted(final(v)@),
        final(v)@.to_set() == old(v)@.to_set().insert(x),
{
    let mut i: usize = 0;
    while i < v.len() && v[i] < x
        invariant
            i <= v@.len(),
            strictly_sorted(v@),
            v@ == old(v)@,
            forall|k: int| 0 <= k < i ==> v@[k] < x,
        decreases v@.len() - i,
    {
        i += 1;
    }
    if i < v.len() && v[i] == x {
        proof {
            assert(old(v)@.to_set().insert(x) =~= old(v)@.to_set()) by {
                assert(old(v)@.to_set().contains(x)) by {
                    assert(old(v)@[i as int] == x);
                }
            }
        }
        return;
    }
    v.insert(i, x);
    proof {
        let o = old(v)@;
        assert(v@ =~= o.subrange(0, i as int).push(x) + o.subrange(i as int, o.len() as int));
        assert forall|a: int, b: int| 0 <= a < b < v@.len() implies v@[a] < v@[b] by {
            if b == i {
                assert(v@[a] == o[a]);
            } else if a == i {
                assert(v@[b] == o[b - 1]);
                assert(o[b - 1] >= x);
            } else if a < i && b > i {
                assert(v@[a] == o[a]);
                assert(v@[b] == o[b - 1]);
            } else if b < i {
                assert(v@[a] == o[a]);
                assert(v@[b] == o[b]);
            } else {
                assert(v@[a] == o[a - 1]);
                assert(v@[b] == o[b - 1]);
            }
        }
        assert forall|t: usize| v@.to_set().contains(t) <==> o.to_set().insert(x).contains(t) by {
            if v@.to_set().contains(t) {
                let k = choose|k: int| 0 <= k < v@.len() && v@[k] == t;
                if k < i {
                    assert(o[k] == t);
                } else if k > i {
                    assert(o[k - 1] == t);
                }
            }
            if o.to_set().contains(t) && t != x {
                let k = choose|k: int| 0 <= k < o.len() && o[k] == t;
                if k < i {
                    assert(v@[k] == t);
                } else {
                    assert(v@[k + 1] == t);
                }
            }
            if t == x {
                assert(v@[i as int] == x);
            }
        }
        assert(v@.to_set() =~= o.to_set().insert(x));
    }
}


/// The names of `names` as character sequences.
pub open spec fn names_view(names: Seq<Vec<char>>) -> Seq<Seq<char>> {
    names.map_values(|v: Vec<char>| v@)
}

fn chars_eq(a: &Vec<char>, b: &Vec<char>) -> (r: bool)
    ensures
        r == (a@ == b@),
{
    if a.len() != b.len() {
        return false;
    }
    let mut i: usize = 0;
    while i < a.len()
        invariant
            a@.len() == b@.len(),
            i <= a@.len(),
            forall|k: int| 0 <= k < i ==> a@[k] == b@[k],
        decreases a@.len() - i,
    {
        if a[i] != b[i] {
            return false;
        }
        i += 1;
    }
    proof {
        assert(a@ =~= b@);
    }
    true
}

/// The index of the last of `names` equal to `s`.
fn lookup_rule(names: &Vec<Vec<char>>, s: &Vec<char>) -> (r: Option<usize>)
    ensures
        r matches Some(k) ==> lookup_name(names_view(names@), s@) == Some(k as nat),
        r is None ==> lookup_name(names_view(names@), s@) is None,
{
    let ghost nv = names_view(names@);
    let mut i: usize = names.len();
    proof {
        assert(nv.take(i as int) =~= nv);
    }
    while i > 0
        invariant
            i <= names@.len(),
            nv == names_view(names@),
            lookup_name(nv, s@) == lookup_name(nv.take(i as int), s@),
        decreases i,
    {
        let ghost t = nv.take(i as int);
        proof {
            assert(t.drop_last() =~= nv.take(i - 1));
            assert(t.last() == names@[i - 1]@);
        }
        if chars_eq(&names[i - 1], s) {
            return Some(i - 1);
        }
        i -= 1;
    }
    proof {
        assert(nv.take(0) =~= Seq::<Seq<char>>::empty());
    }
    None
}

/// The numbers of a character class body.
fn parse_class(inner: &[char]) -> (r: Vec<usize>)
    ensures
        r@ == class_items(spec_split(inner@, ',')),
{
    let pieces = split_chars(inner, ',');
    let ghost sp = spec_split(inner@, ',');
    let mut out: Vec<usize> = Vec::new();
    let mut k: usize = 0;
    while k < pieces.len()
        invariant
            k <= pieces@.len(),
            pieces@.len() == sp.len(),
            sp == spec_split(inner@, ','),
            forall|i: int| 0 <= i < pieces@.len() ==> #[trigger] pieces@[i]@ == sp[i],
            out@ == class_items(sp.take(k as int)),
        decreases pieces@.len() - k,
    {
        let t = trim_chars(pieces[k].as_slice());
        proof {
            assert(sp.take(k + 1).drop_last() =~= sp.take(k as int));
            assert(sp.take(k + 1).last() == sp[k as int]);
            assert(pieces@[k as int]@ == sp[k as int]);
        }
        match parse_usize(t.as_slice()) {
            Some(v) => {
                out.push(v);
            },
            None => {},
        }
        k += 1;
    }
    proof {
        assert(sp.take(sp.len() as int) =~= sp);
    }
    out
}


/// Reads one alternative; `names` are the rules defined so far.
fn parse_variant(s0: &[char], names: &Vec<Vec<char>>) -> (r: GrammarVariant)
    requires
        spec_trim(s0@) != seq!['"'],
    ensures
        r@ == spec_parse_variant(s0@, names_view(names@)),
{
    let s = trim_chars(s0);
    let n = s.len();
    if n > 0 && s[0] == '"' && s[n - 1] == '"' {
        if n == 1 {
            proof {
                assert(s@ =~= seq!['"']);
            }
        }
        let inner = vstd::slice::slice_subrange(s.as_slice(), 1, n - 1);
        return GrammarVariant::Literal(string_from_chars(inner));
    }
    if n > 0 && s[0] == '[' && s[n - 1] == ']' {
        let inner = vstd::slice::slice_subrange(s.as_slice(), 1, n - 1);
        return GrammarVariant::CharClass(parse_class(inner));
    }
    match lookup_rule(names, &s) {
        Some(i) => GrammarVariant::RuleRef(i),
        None => GrammarVariant::RuleRef(0),
    }
}

/// Reads the `|`-separated alternatives of a rule body.
fn parse_rule_variants(def: &[char], names: &Vec<Vec<char>>) -> (r: Vec<GrammarVariant>)
    requires
        body_ok(def@),
    ensures
        r@.map_values(|v: GrammarVariant| v@) == spec_variants(def@, names_view(names@)),
{
    let parts = split_chars(def, '|');
    let ghost sp = spec_split(def@, '|');
    let ghost nv = names_view(names@);
    let mut out: Vec<GrammarVariant> = Vec::new();
    let mut k: usize = 0;
    while k < parts.len()
        invariant
            k <= parts@.len(),
            parts@.len() == sp.len(),
            sp == spec_split(def@, '|'),
            nv == names_view(names@),
            body_ok(def@),
            forall|i: int| 0 <= i < parts@.len() ==> #[trigger] parts@[i]@ == sp[i],
            out@.len() == k,
            forall|i: int| 0 <= i < k ==> #[trigger] out@[i]@ == spec_parse_variant(spec_trim(sp[i]), nv),
        decreases parts@.len() - k,
    {
        let p = trim_chars(parts[k].as_slice());
        proof {
            assert(parts@[k as int]@ == sp[k as int]);
            assert(spec_trim(spec_trim(sp[k as int])) != seq!['"']);
        }
        let v = parse_variant(p.as_slice(), names);
        out.push(v);
        k += 1;
    }
    proof {
        assert(out@.map_values(|v: GrammarVariant| v@) =~= spec_variants(def@, nv));
    }
    out
}


/// The rules of `rules` by their views.
pub open spec fn rules_view(rules: Seq<GrammarRule>) -> Seq<(Seq<char>, Seq<VariantSpec>)> {
    rules.map_values(|r: GrammarRule| r@)
}

impl View for Grammar {
    type V = Seq<(Seq<char>, Seq<VariantSpec>)>;

    closed spec fn view(&self) -> Seq<(Seq<char>, Seq<VariantSpec>)> {
        rules_view(self.rules@)
    }
}

/// Reads the rules of a grammar text.
fn parse_rules(text: &[char]) -> (r: Vec<GrammarRule>)
    requires
        grammar_text_ok(text@),
    ensures
        rules_view(r@) == spec_grammar_rules(text@),
{
    let lines = split_chars(text, '\n');
    let ghost ls = spec_split(text@, '\n');
    let sep: Vec<char> = vec![':', ':', '='];
    proof {
        reveal_strlit("::=");
        assert(sep@ =~= "::="@);
    }
    let mut rules: Vec<GrammarRule> = Vec::new();
    let mut names: Vec<Vec<char>> = Vec::new();
    let mut li: usize = 0;
    while li < lines.len()
        invariant
            li <= lines@.len(),
            lines@.len() == ls.len(),
            ls == spec_split(text@, '\n'),
            sep@ == "::="@,
            sep@.len() == 3,
            grammar_text_ok(text@),
            forall|i: int| 0 <= i < lines@.len() ==> #[trigger] lines@[i]@ == ls[i],
            rules_view(rules@) == rules_of_lines(ls.take(li as int)),
            names_view(names@) == rules_view(rules@).map_values(
                |r: (Seq<char>, Seq<VariantSpec>)| r.0,
            ),
        decreases lines@.len() - li,
    {
        let ghost line = ls[li as int];
        let ghost prev = rules_view(rules@);
        proof {
            assert(lines@[li as int]@ == line);
            assert(ls.take(li + 1).drop_last() =~= ls.take(li as int));
            assert(ls.take(li + 1).last() == line);
            assert(line_ok(ls[li as int]));
        }
        let t = trim_chars(lines[li].as_slice());
        if t.len() > 0 && t[0] != '#' {
            match find_chars(&t, &sep) {
                None => {},
                Some(p) => {
                    proof {
                        assert(p + 3 <= t@.len()) by {
                            assert(find_from(t@, sep@, 0) == Some(p as int));
                            crate::text::lemma_find_from_bound(t@, sep@, 0);
                        }
                    }
                    let name = trim_chars(vstd::slice::slice_subrange(t.as_slice(), 0, p));
                    let def = trim_chars(vstd::slice::slice_subrange(t.as_slice(), p + 3, t.len()));
                    let ghost names0 = names@;
                    let variants = parse_rule_variants(def.as_slice(), &names);
                    let rule = GrammarRule { name: string_from_chars(name.as_slice()), variants };
                    let ghost r0 = rule@;
                    rules.push(rule);
                    names.push(name);
                    proof {
                        assert(t@.subrange(0, p as int) =~= t@.subrange(0, p as int));
                        assert(line_rule(line, names_view(names0)) == Some(r0));
                        assert(rules_view(rules@) =~= prev.push(r0));
                        assert(names_view(names@) =~= names_view(names0).push(r0.0));
                        assert(rules_view(rules@).map_values(|r: (Seq<char>, Seq<VariantSpec>)| r.0)
                            =~= prev.map_values(|r: (Seq<char>, Seq<VariantSpec>)| r.0).push(r0.0));
                    }
                },
            }
        }
        li += 1;
    }
    proof {
        assert(ls.take(ls.len() as int) =~= ls);
    }
    rules
}


/// Every alternative of `def` reads without a panic.
fn check_body(def: &[char]) -> (r: bool)
    ensures
        r == body_ok(def@),
{
    let parts = split_chars(def, '|');
    let ghost sp = spec_split(def@, '|');
    let mut k: usize = 0;
    while k < parts.len()
        invariant
            k <= parts@.len(),
            parts@.len() == sp.len(),
            sp == spec_split(def@, '|'),
            forall|i: int| 0 <= i < parts@.len() ==> #[trigger] parts@[i]@ == sp[i],
            forall|i: int| 0 <= i < k ==> spec_trim(spec_trim(#[trigger] sp[i])) != seq!['"'],
        decreases parts@.len() - k,
    {
        let t = trim_chars(trim_chars(parts[k].as_slice()).as_slice());
        proof {
            assert(parts@[k as int]@ == sp[k as int]);
        }
        if t.len() == 1 && t[0] == '"' {
            proof {
                assert(t@ =~= seq!['"']);
            }
            return false;
        }
        proof {
            assert(t@ != seq!['"']) by {
                if t@ == seq!['"'] {
                    assert(t@.len() == 1 && t@[0] == '"');
                }
            }
        }
        k += 1;
    }
    true
}

/// Every line of `text` reads without a panic.
fn check_grammar_text(text: &[char]) -> (r: bool)
    ensures
        r == grammar_text_ok(text@),
{
    let lines = split_chars(text, '\n');
    let ghost ls = spec_split(text@, '\n');
    let sep: Vec<char> = vec![':', ':', '='];
    proof {
        reveal_strlit("::=");
        assert(sep@ =~= "::="@);
    }
    let mut li: usize = 0;
    while li < lines.len()
        invariant
            li <= lines@.len(),
            lines@.len() == ls.len(),
            ls == spec_split(text@, '\n'),
            sep@ == "::="@,
            sep@.len() == 3,
            forall|i: int| 0 <= i < lines@.len() ==> #[trigger] lines@[i]@ == ls[i],
            forall|i: int| 0 <= i < li ==> line_ok(#[trigger] ls[i]),
        decreases lines@.len() - li,
    {
        proof {
            assert(lines@[li as int]@ == ls[li as int]);
        }
        let t = trim_chars(lines[li].as_slice());
        if t.len() > 0 && t[0] != '#' {
            match find_chars(&t, &sep) {
                None => {},
                Some(p) => {
                    proof {
                        crate::text::lemma_find_from_bound(t@, sep@, 0);
                    }
                    let def = trim_chars(vstd::slice::slice_subrange(t.as_slice(), p + 3, t.len()));
                    if !check_body(def.as_slice()) {
                        return false;
                    }
                },
            }
        }
        li += 1;
    }
    true
}

impl Grammar {
    /// The index of the start rule.
    pub closed spec fn start(&self) -> usize {
        self.start_rule
    }

    /// A grammar with no rules.
    pub fn new() -> (g: Self)
        ensures
            g@ == Seq::<(Seq<char>, Seq<VariantSpec>)>::empty(),
            g.start() == 0,
    {
        let g = Grammar { rules: Vec::new(), start_rule: 0 };
        proof {
            assert(g@ =~= Seq::<(Seq<char>, Seq<VariantSpec>)>::empty());
        }
        g
    }

    /// Reads a grammar from its text: one rule per line, `name ::= alt | alt | ...`. Fails
    /// when the text defines no rule.
    pub fn from_ggnf(ggnf: &str) -> (r: Result<Grammar, String>)
        requires
            grammar_text_ok(ggnf@),
        ensures
            match r {
                Ok(g) => spec_grammar_rules(ggnf@).len() > 0 && g@ == spec_grammar_rules(ggnf@)
                    && g.start() == 0,
                Err(e) => spec_grammar_rules(ggnf@).len() == 0 && e@ == "No rules found in grammar"@,
            },
    {
        let text = chars_of(ggnf);
        let rules = parse_rules(text.as_slice());
        if rules.len() == 0 {
            return Err("No rules found in grammar".to_string());
        }
        Ok(Grammar { rules, start_rule: 0 })
    }
}

impl Default for Grammar {
    fn default() -> (g: Self)
        ensures
            g@ == Seq::<(Seq<char>, Seq<VariantSpec>)>::empty(),
            g.start() == 0,
    {
        Grammar::new()
    }
}


/// Inserts every element of `xs` into a strictly increasing vector.
fn insert_all(acc: &mut Vec<usize>, xs: &Vec<usize>)
    requires
        strictly_sorted(old(acc)@),
    ensures
        strictly_sorted(final(acc)@),
        final(acc)@.to_set() == old(acc)@.to_set() + xs@.to_set(),
{
    let mut k: usize = 0;
    while k < xs.len()
        invariant
            k <= xs@.len(),
            strictly_sorted(acc@),
            acc@.to_set() == old(acc)@.to_set() + xs@.take(k as int).to_set(),
        decreases xs@.len() - k,
    {
        let ghost before = acc@.to_set();
        insert_sorted_unique(acc, xs[k]);
        proof {
            let t0 = xs@.take(k as int);
            let t1 = xs@.take(k + 1);
            assert(t1 =~= t0.push(xs@[k as int]));
            assert(t1.to_set() =~= t0.to_set().insert(xs@[k as int])) by {
                assert forall|x: usize| t1.to_set().contains(x) <==> t0.to_set().insert(xs@[k as int]).contains(x) by {
                    if t1.to_set().contains(x) {
                        let m = choose|m: int| 0 <= m < t1.len() && t1[m] == x;
                        if m < k {
                            assert(t0[m] == x);
                        }
                    }
                    if t0.to_set().contains(x) {
                        let m = choose|m: int| 0 <= m < t0.len() && t0[m] == x;
                        assert(t1[m] == x);
                    }
                    if x == xs@[k as int] {
                        assert(t1[k as int] == x);
                    }
                }
            }
            assert(acc@.to_set() =~= old(acc)@.to_set() + t1.to_set());
        }
        k += 1;
    }
    proof {
        assert(xs@.take(xs@.len() as int) =~= xs@);
    }
}

/// The tokens that a string's characters stand for.
fn char_codes(s: &String) -> (r: Vec<usize>)
    ensures
        r@ == s@.map_values(|c: char| c as usize),
{
    let cs = chars_of(s.as_str());
    let mut out: Vec<usize> = Vec::new();
    let mut k: usize = 0;
    while k < cs.len()
        invariant
            k <= cs@.len(),
            cs@ == s@,
            out@ == cs@.take(k as int).map_values(|c: char| c as usize),
        decreases cs@.len() - k,
    {
        let c = cs[k];
        out.push(c as usize);
        proof {
            assert(cs@.take(k + 1).map_values(|c: char| c as usize) =~= cs@.take(k as int).map_values(
                |c: char| c as usize,
            ).push(c as usize));
        }
        k += 1;
    }
    proof {
        assert(cs@.take(cs@.len() as int) =~= cs@);
    }
    out
}

/// Adds the tokens an alternative allows.
fn add_variant_tokens(acc: &mut Vec<usize>, v: &GrammarVariant)
    requires
        strictly_sorted(old(acc)@),
    ensures
        strictly_sorted(final(acc)@),
        final(acc)@.to_set() == old(acc)@.to_set() + variant_tokens(v@).to_set(),
{
    match v {
        GrammarVariant::Literal(s) => {
            let codes = char_codes(s);
            insert_all(acc, &codes);
        },
        GrammarVariant::CharClass(c) => {
            insert_all(acc, c);
        },
        GrammarVariant::RuleRef(r) => {
            insert_sorted_unique(acc, *r);
            proof {
                assert(seq![*r].to_set() =~= set![*r]) by {
                    assert(seq![*r][0] == *r);
                }
                assert(final(acc)@.to_set() =~= old(acc)@.to_set() + seq![*r].to_set());
            }
        },
        _ => {
            proof {
                assert(variant_tokens(v@).to_set() =~= Set::<usize>::empty());
                assert(old(acc)@.to_set() + variant_tokens(v@).to_set() =~= old(acc)@.to_set());
            }
        },
    }
}


/// The tokens allowed by the alternatives of the active rules whose position comes before
/// alternative `b` of rule `a`.
pub open spec fn tokens_before(rules: Seq<(Seq<char>, Seq<VariantSpec>)>, active: Seq<bool>, a: int, b: int) -> Set<usize> {
    Set::new(
        |t: usize|
            exists|i: int, j: int|
                0 <= i < rules.len() && active[i] && 0 <= j < rules[i].1.len() && (i < a || (i == a
                    && j < b)) && #[trigger] variant_tokens(rules[i].1[j]).contains(t),
    )
}

/// Whether an alternative accepts `token`.
fn variant_accepts(v: &GrammarVariant, token: usize) -> (r: bool)
    ensures
        r == variant_matches(v@, token),
{
    match v {
        GrammarVariant::Literal(s) => {
            let cs = chars_of(s.as_str());
            cs.len() > 0 && cs[0] as usize == token
        },
        GrammarVariant::RuleRef(i) => *i == token,
        _ => false,
    }
}

impl Grammar {
    /// The rules active after `token`: those with an alternative that accepts it.
    fn apply_token(&self, state: GrammarState, token: usize) -> (s: GrammarState)
        ensures
            s.0@.len() == self@.len(),
            forall|i: int| 0 <= i < self@.len() ==> #[trigger] s.0@[i] == rule_active(self@[i], token),
    {
        let mut out: Vec<bool> = Vec::new();
        let mut i: usize = 0;
        while i < self.rules.len()
            invariant
                i <= self.rules@.len(),
                out@.len() == i,
                forall|k: int| 0 <= k < i ==> #[trigger] out@[k] == rule_active(self@[k], token),
            decreases self.rules@.len() - i,
        {
            let rule = &self.rules[i];
            let mut hit = false;
            let mut j: usize = 0;
            while j < rule.variants.len()
                invariant
                    j <= rule.variants@.len(),
                    rule == self.rules@[i as int],
                    hit == exists|m: int| 0 <= m < j && variant_matches(#[trigger] rule.variants@[m]@, token),
                decreases rule.variants@.len() - j,
            {
                if variant_accepts(&rule.variants[j], token) {
                    hit = true;
                }
                j += 1;
            }
            proof {
                let rv = self@[i as int];
                assert(rv == rule@);
                if hit {
                    let m = choose|m: int| 0 <= m < j && variant_matches(#[trigger] rule.variants@[m]@, token);
                    assert(rv.1[m] == rule.variants@[m]@);
                }
                if rule_active(rv, token) {
                    let m = choose|m: int| 0 <= m < rv.1.len() && variant_matches(#[trigger] rv.1[m], token);
                    assert(rv.1[m] == rule.variants@[m]@);
                }
            }
            out.push(hit);
            i += 1;
        }
        GrammarState(out)
    }

    /// The tokens that the alternatives of the active rules allow, sorted, without repeats.
    fn get_tokens_for_state(&self, state: &GrammarState) -> (r: Vec<usize>)
        requires
            state.0@.len() == self@.len(),
        ensures
            strictly_sorted(r@),
            r@.to_set() == tokens_before(self@, state.0@, self@.len() as int, 0),
    {
        let ghost rs = self@;
        let ghost act = state.0@;
        let mut acc: Vec<usize> = Vec::new();
        proof {
            assert(acc@.to_set() =~= tokens_before(rs, act, 0, 0));
        }
        let mut a: usize = 0;
        while a < self.rules.len()
            invariant
                a <= self.rules@.len(),
                rs == self@,
                act == state.0@,
                act.len() == rs.len(),
                strictly_sorted(acc@),
                acc@.to_set() == tokens_before(rs, act, a as int, 0),
            decreases self.rules@.len() - a,
        {
            let rule = &self.rules[a];
            proof {
                assert(rs[a as int] == rule@);
            }
            if state.0[a] {
                let mut b: usize = 0;
                while b < rule.variants.len()
                    invariant
                        b <= rule.variants@.len(),
                        rule == self.rules@[a as int],
                        rs == self@,
                        rs[a as int] == rule@,
                        a < rs.len(),
                        act == state.0@,
                        act[a as int],
                        strictly_sorted(acc@),
                        acc@.to_set() == tokens_before(rs, act, a as int, b as int),
                    decreases rule.variants@.len() - b,
                {
                    let ghost before = acc@.to_set();
                    add_variant_tokens(&mut acc, &rule.variants[b]);
                    proof {
                        let vt = variant_tokens(rs[a as int].1[b as int]);
                        assert(rs[a as int].1[b as int] == rule.variants@[b as int]@);
                        assert forall|t: usize| #[trigger] tokens_before(rs, act, a as int, b + 1).contains(t)
                            <==> (before + vt.to_set()).contains(t) by {
                            if tokens_before(rs, act, a as int, b + 1).contains(t) {
                                let (i, j) = choose|i: int, j: int|
                                    0 <= i < rs.len() && act[i] && 0 <= j < rs[i].1.len() && (i < a || (i
                                        == a && j < b + 1)) && #[trigger] variant_tokens(rs[i].1[j]).contains(t);
                                if !(i == a && j == b) {
                                    assert(tokens_before(rs, act, a as int, b as int).contains(t));
                                }
                            }
                            if before.contains(t) {
                                let (i, j) = choose|i: int, j: int|
                                    0 <= i < rs.len() && act[i] && 0 <= j < rs[i].1.len() && (i < a || (i
                                        == a && j < b)) && #[trigger] variant_tokens(rs[i].1[j]).contains(t);
                                assert(tokens_before(rs, act, a as int, b + 1).contains(t));
                            }
                            if vt.to_set().contains(t) {
                                assert(vt.contains(t));
                                assert(tokens_before(rs, act, a as int, b + 1).contains(t));
                            }
                        }
                        assert(acc@.to_set() =~= tokens_before(rs, act, a as int, b + 1));
                    }
                    b += 1;
                }
                proof {
                    assert forall|t: usize| #[trigger] tokens_before(rs, act, a + 1, 0).contains(t)
                        <==> tokens_before(rs, act, a as int, b as int).contains(t) by {
                        if tokens_before(rs, act, a + 1, 0).contains(t) {
                            let (i, j) = choose|i: int, j: int|
                                0 <= i < rs.len() && act[i] && 0 <= j < rs[i].1.len() && (i < a + 1 || (i
                                    == a + 1 && j < 0)) && #[trigger] variant_tokens(rs[i].1[j]).contains(t);
                            assert(tokens_before(rs, act, a as int, b as int).contains(t));
                        }
                        if tokens_before(rs, act, a as int, b as int).contains(t) {
                            let (i, j) = choose|i: int, j: int|
                                0 <= i < rs.len() && act[i] && 0 <= j < rs[i].1.len() && (i < a || (i
                                    == a && j < b)) && #[trigger] variant_tokens(rs[i].1[j]).contains(t);
                            assert(tokens_before(rs, act, a + 1, 0).contains(t));
                        }
                    }
                    assert(acc@.to_set() =~= tokens_before(rs, act, a + 1, 0));
                }
            } else {
                proof {
                    assert forall|t: usize| #[trigger] tokens_before(rs, act, a + 1, 0).contains(t)
                        <==> tokens_before(rs, act, a as int, 0).contains(t) by {
                        if tokens_before(rs, act, a + 1, 0).contains(t) {
                            let (i, j) = choose|i: int, j: int|
                                0 <= i < rs.len() && act[i] && 0 <= j < rs[i].1.len() && (i < a + 1 || (i
                                    == a + 1 && j < 0)) && #[trigger] variant_tokens(rs[i].1[j]).contains(t);
                            assert(tokens_before(rs, act, a as int, 0).contains(t));
                        }
                        if tokens_before(rs, act, a as int, 0).contains(t) {
                            let (i, j) = choose|i: int, j: int|
                                0 <= i < rs.len() && act[i] && 0 <= j < rs[i].1.len() && (i < a || (i
                                    == a && j < 0)) && #[trigger] variant_tokens(rs[i].1[j]).contains(t);
                            assert(tokens_before(rs, act, a + 1, 0).contains(t));
                        }
                    }
                    assert(acc@.to_set() =~= tokens_before(rs, act, a + 1, 0));
                }
            }
            a += 1;
        }
        acc
    }

    /// The tokens the grammar allows after `prev_tokens`, in increasing order without repeats:
    /// those of the alternatives of every rule with an alternative that accepts the earliest
    /// of the last ten tokens; none when `prev_tokens` is empty.
    pub fn get_allowed_tokens(&self, prev_tokens: &[Token]) -> (r: Vec<usize>)
        ensures
            strictly_sorted(r@),
            r@.to_set() == spec_allowed_tokens(self@, prev_tokens@),
    {
        let mut state = GrammarState::new(self.rules.len());
        let n = prev_tokens.len();
        let k: usize = if n < 10 { n } else { 10 };
        let mut step: usize = 0;
        while step < k
            invariant
                k <= n,
                n == prev_tokens@.len(),
                k == (if n < 10 { n } else { 10 }),
                step <= k,
                state.0@.len() == self@.len(),
                step == 0 ==> forall|i: int| 0 <= i < state.0@.len() ==> !#[trigger] state.0@[i],
                step > 0 ==> forall|i: int| 0 <= i < self@.len() ==> #[trigger] state.0@[i] == rule_active(
                    self@[i],
                    prev_tokens@[n - step] as usize,
                ),
            decreases k - step,
        {
            let token = prev_tokens[n - 1 - step];
            state = self.apply_token(state, token as usize);
            step += 1;
        }
        let r = self.get_tokens_for_state(&state);
        proof {
            let rs = self@;
            let act = state.0@;
            if n == 0 {
                assert forall|t: usize| !tokens_before(rs, act, rs.len() as int, 0).contains(t) by {
                    if tokens_before(rs, act, rs.len() as int, 0).contains(t) {
                        let (i, j) = choose|i: int, j: int|
                            0 <= i < rs.len() && act[i] && 0 <= j < rs[i].1.len() && (i < rs.len() || (i
                                == rs.len() && j < 0)) && #[trigger] variant_tokens(rs[i].1[j]).contains(t);
                    }
                }
                assert(r@.to_set() =~= Set::<usize>::empty());
            } else {
                let tok = deciding_token(prev_tokens@) as usize;
                assert(prev_tokens@[n - k] == deciding_token(prev_tokens@));
                assert forall|t: usize| #[trigger] tokens_before(rs, act, rs.len() as int, 0).contains(t)
                    <==> allowed_after(rs, tok).contains(t) by {
                    if tokens_before(rs, act, rs.len() as int, 0).contains(t) {
                        let (i, j) = choose|i: int, j: int|
                            0 <= i < rs.len() && act[i] && 0 <= j < rs[i].1.len() && (i < rs.len() || (i
                                == rs.len() && j < 0)) && #[trigger] variant_tokens(rs[i].1[j]).contains(t);
                        assert(rule_active(rs[i], tok));
                    }
                    if allowed_after(rs, tok).contains(t) {
                        let (i, j) = choose|i: int, j: int|
                            0 <= i < rs.len() && rule_active(rs[i], tok) && 0 <= j < rs[i].1.len()
                                && #[trigger] variant_tokens(rs[i].1[j]).contains(t);
                        assert(act[i]);
                    }
                }
                assert(r@.to_set() =~= allowed_after(rs, tok));
            }
        }
        r
    }
}


/// The grammar text of JSON values.
pub const JSON_GGNF: &'static str = r#"
json ::= object | array | string | number | boolean | null
object ::= "{" "}" | "{" members "}"
members ::= pair | pair "," members
pair ::= string ":" value
array ::= "[" "]" | "[" elements "]"
elements ::= value | value "," elements
value ::= string | number | object | array | boolean | null
string ::= '"' characters '"'
characters ::= character characters | ""
character ::= [^"\\] | "\\" escape
escape ::= ["\\/bfnrt] | "u" hex hex hex hex
hex ::= [0-9A-Fa-f]
number ::= "-"? int frac exp
int ::= "0" | [1-9] [0-9]*
frac ::= "." [0-9]+
exp ::= [eE] [+-]? [0-9]+
boolean ::= "true" | "false"
null ::= "null"
"#;

/// The grammar text of a small expression language.
pub const CODE_GGNF: &'static str = r#"
code ::= statement+
statement ::= expression ";" | compound_statement | function_def
compound_statement ::= "{" statement* "}"
function_def ::= "def" identifier "(" params ")" ":" statement
params ::= identifier "," params | identifier | ""
expression ::= term (("+" | "-") term)*
term ::= factor (("*" | "/" | "%") factor)*
factor ::= number | identifier | "(" expression ")" | function_call
function_call ::= identifier "(" arguments ")"
arguments ::= expression "," arguments | expression | ""
identifier ::= [a-zA-Z_] [a-zA-Z0-9_]*
number ::= [0-9]+ ("." [0-9]+)?
"#;

/// The grammar a text reads as, or the empty grammar where it defines no rule or would not read.
fn grammar_or_empty(text: &str) -> (g: Grammar)
    ensures
        g@ == (if grammar_text_ok(text@) {
            spec_grammar_rules(text@)
        } else {
            Seq::empty()
        }),
        g.start() == 0,
{
    let cs = chars_of(text);
    if !check_grammar_text(cs.as_slice()) {
        return Grammar::new();
    }
    match Grammar::from_ggnf(text) {
        Ok(g) => g,
        Err(_) => Grammar::new(),
    }
}

/// The grammar of JSON values.
pub fn create_json_grammar() -> (g: Grammar)
    ensures
        g@ == (if grammar_text_ok(JSON_GGNF@) {
            spec_grammar_rules(JSON_GGNF@)
        } else {
            Seq::empty()
        }),
{
    grammar_or_empty(JSON_GGNF)
}

/// The grammar of a small expression language.
pub fn create_code_grammar() -> (g: Grammar)
    ensures
        g@ == (if grammar_text_ok(CODE_GGNF@) {
            spec_grammar_rules(CODE_GGNF@)
        } else {
            Seq::empty()
        }),
{
    grammar_or_empty(CODE_GGNF)
}

} // verus!
