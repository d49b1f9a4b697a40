//! Paths into a response document, with their textual syntax:
//! `/`-separated elements, `@` for flatten, `... on T` for a fragment, and
//! an optional `|[A,B]` suffix of type conditions.
use vstd::prelude::*;
use crate::text::{
    find_suffix, find_suffix_str, join, lemma_find_suffix, lemma_join_split, lemma_split_nonempty, push_char,
    push_str, split, split_str,
};

verus! {

/// A GraphQL path element that is composed of strings or numbers.
#[derive(Clone, Debug, PartialEq, Eq, Hash)]
pub enum PathElement {
    /// A path element that given an array will flatmap the content.
    Flatten(Option<Vec<String>>),
    /// An index path element.
    Index(usize),
    /// A fragment application.
    Fragment(String),
    /// A key path element.
    Key(String, Option<Vec<String>>),
}

/// A path into the result document.
#[derive(Clone, Debug, PartialEq, Eq, Hash, Default)]
pub struct Path(pub Vec<PathElement>);

/// Errors of the path syntax.
#[derive(Clone, Copy, Debug, PartialEq, Eq)]
pub enum PathError {
    InvalidPathSyntax,
}

/// What a path element means, over mathematical values.
pub enum ElemModel {
    Flatten(Option<Seq<Seq<char>>>),
    Index(nat),
    Fragment(Seq<char>),
    Key(Seq<char>, Option<Seq<Seq<char>>>),
}

pub open spec fn conds_view(c: Option<Vec<String>>) -> Option<Seq<Seq<char>>> {
    match c {
        Some(v) => Some(v@.map_values(|x: String| x@)),
        None => None,
    }
}

impl View for PathElement {
    type V = ElemModel;

    open spec fn view(&self) -> ElemModel {
        match self {
            PathElement::Flatten(c) => ElemModel::Flatten(conds_view(*c)),
            PathElement::Index(n) => ElemModel::Index(*n as nat),
            PathElement::Fragment(t) => ElemModel::Fragment(t@),
            PathElement::Key(k, c) => ElemModel::Key(k@, conds_view(*c)),
        }
    }
}

impl View for Path {
    type V = Seq<ElemModel>;

    open spec fn view(&self) -> Seq<ElemModel> {
        self.0@.map_values(|e: PathElement| e@)
    }
}

pub open spec fn fragment_prefix() -> Seq<char> {
    seq!['.', '.', '.', ' ', 'o', 'n', ' ']
}

pub open spec fn is_digit(c: char) -> bool {
    '0' <= c && c <= '9'
}

pub open spec fn digit_value(c: char) -> nat {
    (c as int - '0' as int) as nat
}

pub open spec fn digit_char(d: nat) -> char {
    if d == 0 { '0' } else if d == 1 { '1' } else if d == 2 { '2' } else if d == 3 { '3' }
    else if d == 4 { '4' } else if d == 5 { '5' } else if d == 6 { '6' } else if d == 7 { '7' }
    else if d == 8 { '8' } else { '9' }
}

/// The decimal digits of `n`, without leading zeros.
pub open spec fn decimal(n: nat) -> Seq<char>
    decreases n,
{
    if n < 10 {
        seq![digit_char(n)]
    } else {
        decimal(n / 10).push(digit_char(n % 10))
    }
}

/// The number that a string of digits denotes.
pub open spec fn decimal_value(t: Seq<char>) -> nat
    decreases t.len(),
{
    if t.len() == 0 {
        0
    } else {
        decimal_value(t.drop_last()) * 10 + digit_value(t.last())
    }
}

/// Digits only, no leading zero, and the value fits an index.
pub open spec fn is_index_text(t: Seq<char>) -> bool {
    &&& t.len() > 0
    &&& forall|i: int| 0 <= i < t.len() ==> is_digit(#[trigger] t[i])
    &&& (t.len() == 1 || t[0] != '0')
    &&& decimal_value(t) <= usize::MAX
}

/// The text of an optional list of type conditions.
pub open spec fn conds_text(c: Option<Seq<Seq<char>>>) -> Seq<char> {
    match c {
        Some(names) => seq!['|', '['] + join(names, ',') + seq![']'],
        None => Seq::<char>::empty(),
    }
}

pub open spec fn element_text(e: ElemModel) -> Seq<char> {
    match e {
        ElemModel::Flatten(c) => seq!['@'] + conds_text(c),
        ElemModel::Index(n) => decimal(n),
        ElemModel::Fragment(t) => fragment_prefix() + t,
        ElemModel::Key(k, c) => k + conds_text(c),
    }
}

/// The canonical text of a path: each element preceded by `/`.
pub open spec fn path_text(p: Seq<ElemModel>) -> Seq<char>
    decreases p.len(),
{
    if p.len() == 0 {
        Seq::<char>::empty()
    } else {
        path_text(p.drop_last()) + seq!['/'] + element_text(p.last())
    }
}

/// The names listed between `|[` and `]`.
pub open spec fn parse_conds(t: Seq<char>) -> Seq<Seq<char>> {
    if t.len() == 0 {
        Seq::<Seq<char>>::empty()
    } else {
        split(t, ',')
    }
}

/// An element's body, once its type-condition suffix is taken off.
pub open spec fn parse_body(b: Seq<char>, c: Option<Seq<Seq<char>>>) -> Option<ElemModel> {
    if b == seq!['@'] {
        Some(ElemModel::Flatten(c))
    } else if b.len() > 0 && b[0] == '@' {
        None
    } else if is_index_text(b) && c is None {
        Some(ElemModel::Index(decimal_value(b)))
    } else {
        Some(ElemModel::Key(b, c))
    }
}

/// The element that a segment of path text denotes, if it is well formed: a
/// fragment takes all text after `... on ` as its name; otherwise a `|[`
/// starts a type-condition suffix, which must run to a final `]`.
pub open spec fn parse_element(e: Seq<char>) -> Option<ElemModel> {
    let b = find_suffix(e, 0);
    if e.len() >= 7 && e.take(7) == fragment_prefix() {
        Some(ElemModel::Fragment(e.skip(7)))
    } else if b < 0 {
        parse_body(e, None)
    } else if b + 2 <= e.len() - 1 && e.last() == ']' {
        parse_body(e.take(b), Some(parse_conds(e.subrange(b + 2, e.len() - 1))))
    } else {
        None
    }
}

pub open spec fn parse_elements(segs: Seq<Seq<char>>) -> Option<Seq<ElemModel>>
    decreases segs.len(),
{
    if segs.len() == 0 {
        Some(Seq::<ElemModel>::empty())
    } else {
        match (parse_elements(segs.drop_last()), parse_element(segs.last())) {
            (Some(p), Some(e)) => Some(p.push(e)),
            _ => None,
        }
    }
}

/// The path that a text denotes, if it is well formed.
pub open spec fn parse_path_text(s: Seq<char>) -> Option<Seq<ElemModel>> {
    if s.len() == 0 {
        Some(Seq::<ElemModel>::empty())
    } else if s[0] != '/' {
        None
    } else {
        parse_elements(split(s.drop_first(), '/'))
    }
}

proof fn lemma_digit(c: char)
    requires
        is_digit(c),
    ensures
        digit_value(c) < 10,
        digit_char(digit_value(c)) == c,
{
}

proof fn lemma_value_positive(t: Seq<char>)
    requires
        t.len() > 0,
        forall|i: int| 0 <= i < t.len() ==> is_digit(#[trigger] t[i]),
        t[0] != '0',
    ensures
        decimal_value(t) >= 1,
    decreases t.len(),
{
    if t.len() > 1 {
        lemma_value_positive(t.drop_last());
    } else {
        lemma_digit(t[0]);
    }
}

/// Canonical digit strings print back as themselves.
proof fn lemma_decimal_round_trip(t: Seq<char>)
    requires
        t.len() > 0,
        forall|i: int| 0 <= i < t.len() ==> is_digit(#[trigger] t[i]),
        t.len() == 1 || t[0] != '0',
    ensures
        decimal(decimal_value(t)) == t,
    decreases t.len(),
{
    lemma_digit(t.last());
    if t.len() == 1 {
        assert(t.drop_last() =~= Seq::<char>::empty());
        assert(decimal_value(t.drop_last()) == 0);
        assert(t.last() == t[0]);
        assert(decimal_value(t) == digit_value(t[0]));
        assert(t =~= seq![t[0]]);
    } else {
        let u = t.drop_last();
        lemma_decimal_round_trip(u);
        lemma_value_positive(u);
        let v = decimal_value(u);
        let d = digit_value(t.last());
        let n = v * 10 + d;
        assert(n / 10 == v && n % 10 == d && n >= 10) by (nonlinear_arith)
            requires n == v * 10 + d, d < 10, v >= 1,
        ;
        assert(decimal_value(t) == n);
        assert(decimal(n) == decimal(v).push(digit_char(d)));
        assert(t =~= u.push(t.last()));
    }
}

proof fn lemma_join_conds(t: Seq<char>)
    ensures
        join(parse_conds(t), ',') == t,
{
    if t.len() > 0 {
        lemma_join_split(t, ',');
    }
}

/// Printing a parsed element gives back its text.
proof fn lemma_element_round_trip(e: Seq<char>)
    requires
        parse_element(e) is Some,
    ensures
        element_text(parse_element(e)->0) == e,
{
    let b = find_suffix(e, 0);
    lemma_find_suffix(e, 0);
    if e.len() >= 7 && e.take(7) == fragment_prefix() {
        assert(e =~= fragment_prefix() + e.skip(7));
    } else if b >= 0 {
        let body = e.take(b);
        let t = e.subrange(b + 2, e.len() - 1);
        lemma_join_conds(t);
        let c = Some(parse_conds(t));
        assert(conds_text(c) =~= seq!['|', '['] + t + seq![']']);
        assert(e =~= body + conds_text(c));
    } else {
        if e == seq!['@'] {
            assert(e =~= seq!['@'] + conds_text(None));
        } else if is_index_text(e) {
            lemma_decimal_round_trip(e);
        } else {
            assert(e =~= e + conds_text(None));
        }
    }
}

proof fn lemma_join_push(c: Seq<Seq<char>>, sep: char)
    requires
        c.len() >= 2,
    ensures
        join(c, sep) == join(c.drop_last(), sep) + seq![sep] + c.last(),
    decreases c.len(),
{
    if c.len() == 2 {
        assert(c.drop_last() =~= seq![c[0]]);
        assert(c.drop_first() =~= seq![c[1]]);
        assert(join(c.drop_first(), sep) == c[1]);
        assert(join(c.drop_last(), sep) == c[0]);
    } else {
        lemma_join_push(c.drop_first(), sep);
        assert(c.drop_first().drop_last() =~= c.drop_last().drop_first());
        assert(c.drop_last()[0] == c[0]);
        assert(join(c.drop_last(), sep) == c[0] + seq![sep] + join(c.drop_last().drop_first(), sep));
        assert(join(c, sep) =~= join(c.drop_last(), sep) + seq![sep] + c.last());
    }
}

proof fn lemma_elements_text(segs: Seq<Seq<char>>)
    requires
        segs.len() >= 1,
        parse_elements(segs) is Some,
    ensures
        path_text(parse_elements(segs)->0) == seq!['/'] + join(segs, '/'),
    decreases segs.len(),
{
    let p = parse_elements(segs)->0;
    let q = parse_elements(segs.drop_last())->0;
    lemma_element_round_trip(segs.last());
    assert(p.drop_last() =~= q);
    if segs.len() == 1 {
        assert(q.len() == 0);
        assert(p.drop_last() =~= Seq::<ElemModel>::empty());
        assert(path_text(p.drop_last()) == Seq::<char>::empty());
        assert(join(segs, '/') == segs[0]);
        assert(path_text(p) =~= seq!['/'] + segs[0]);
    } else {
        lemma_elements_text(segs.drop_last());
        lemma_join_push(segs, '/');
        assert(path_text(p) =~= seq!['/'] + join(segs, '/'));
    }
}

/// Path round trip: every text that parses prints back exactly as itself.
pub proof fn lemma_path_round_trip(s: Seq<char>)
    requires
        parse_path_text(s) is Some,
    ensures
        path_text(parse_path_text(s)->0) == s,
{
    if s.len() > 0 {
        let segs = split(s.drop_first(), '/');
        lemma_split_nonempty(s.drop_first(), '/');
        lemma_join_split(s.drop_first(), '/');
        lemma_elements_text(segs);
        assert(s =~= seq!['/'] + s.drop_first());
    }
}

proof fn lemma_value_prefix(t: Seq<char>, i: int)
    requires
        0 <= i <= t.len(),
    ensures
        decimal_value(t.take(i)) <= decimal_value(t),
    decreases t.len() - i,
{
    if i < t.len() {
        assert(t.take(i + 1).drop_last() =~= t.take(i));
        lemma_value_prefix(t, i + 1);
    } else {
        assert(t.take(i) =~= t);
    }
}

fn digit_of(d: usize) -> (c: char)
    requires
        d < 10,
    ensures
        c == digit_char(d as nat),
{
    if d == 0 { '0' } else if d == 1 { '1' } else if d == 2 { '2' } else if d == 3 { '3' }
    else if d == 4 { '4' } else if d == 5 { '5' } else if d == 6 { '6' } else if d == 7 { '7' }
    else if d == 8 { '8' } else { '9' }
}

pub(crate) fn write_decimal(out: &mut String, n: usize)
    ensures
        final(out)@ == old(out)@ + decimal(n as nat),
    decreases n,
{
    if n < 10 {
        push_char(out, digit_of(n));
    } else {
        write_decimal(out, n / 10);
        push_char(out, digit_of(n % 10));
        assert(final(out)@ =~= old(out)@ + decimal(n as nat));
    }
}

/// Writes `names` with `,` between each two.
pub(crate) fn write_joined(out: &mut String, names: &Vec<String>, sep: char)
    ensures
        final(out)@ == old(out)@ + join(names@.map_values(|x: String| x@), sep),
{
    let ghost c = names@.map_values(|x: String| x@);
    let mut i: usize = 0;
    while i < names.len()
        invariant
            c == names@.map_values(|x: String| x@),
            i <= names.len(),
            out@ == old(out)@ + join(c.take(i as int), sep),
        decreases names.len() - i,
    {
        if i > 0 {
            push_char(out, sep);
        }
        push_str(out, names[i].as_str());
        proof {
            let t = c.take(i + 1);
            if i == 0 {
                assert(t =~= seq![c[0]]);
                assert(join(c.take(0), sep) =~= Seq::<char>::empty());
            } else {
                lemma_join_push(t, sep);
                assert(t.drop_last() =~= c.take(i as int));
            }
            assert(out@ =~= old(out)@ + join(t, sep));
        }
        i = i + 1;
    }
    assert(c.take(i as int) =~= c);
}

fn write_conds(out: &mut String, c: &Option<Vec<String>>)
    ensures
        final(out)@ == old(out)@ + conds_text(conds_view(*c)),
{
    match c {
        Some(names) => {
            push_char(out, '|');
            push_char(out, '[');
            write_joined(out, names, ',');
            push_char(out, ']');
            assert(final(out)@ =~= old(out)@ + conds_text(conds_view(*c)));
        },
        None => {
            assert(final(out)@ =~= old(out)@ + conds_text(conds_view(*c)));
        },
    }
}

fn write_fragment_prefix(out: &mut String)
    ensures
        final(out)@ == old(out)@ + fragment_prefix(),
{
    push_char(out, '.');
    push_char(out, '.');
    push_char(out, '.');
    push_char(out, ' ');
    push_char(out, 'o');
    push_char(out, 'n');
    push_char(out, ' ');
    assert(final(out)@ =~= old(out)@ + fragment_prefix());
}

fn write_element(out: &mut String, e: &PathElement)
    ensures
        final(out)@ == old(out)@ + element_text(e@),
{
    match e {
        PathElement::Flatten(c) => {
            push_char(out, '@');
            write_conds(out, c);
            assert(final(out)@ =~= old(out)@ + element_text(e@));
        },
        PathElement::Index(n) => {
            write_decimal(out, *n);
        },
        PathElement::Fragment(t) => {
            write_fragment_prefix(out);
            push_str(out, t.as_str());
            assert(final(out)@ =~= old(out)@ + element_text(e@));
        },
        PathElement::Key(k, c) => {
            push_str(out, k.as_str());
            write_conds(out, c);
            assert(final(out)@ =~= old(out)@ + element_text(e@));
        },
    }
}

/// Appends the canonical text of `p`.
pub(crate) fn write_path(out: &mut String, p: &Path)
    ensures
        final(out)@ == old(out)@ + path_text(p@),
{
    let mut i: usize = 0;
    while i < p.0.len()
        invariant
            i <= p.0.len(),
            out@ == old(out)@ + path_text(p@.take(i as int)),
        decreases p.0.len() - i,
    {
        push_char(out, '/');
        write_element(out, &p.0[i]);
        proof {
            assert(p@.take(i + 1).drop_last() =~= p@.take(i as int));
            assert(out@ =~= old(out)@ + path_text(p@.take(i + 1)));
        }
        i = i + 1;
    }
    assert(p@.take(i as int) =~= p@);
}

fn is_fragment_prefixed(b: &str) -> (r: bool)
    ensures
        r == (b@.len() >= 7 && b@.take(7) == fragment_prefix()),
{
    if b.unicode_len() < 7 {
        return false;
    }
    let r = b.get_char(0) == '.' && b.get_char(1) == '.' && b.get_char(2) == '.'
        && b.get_char(3) == ' ' && b.get_char(4) == 'o' && b.get_char(5) == 'n'
        && b.get_char(6) == ' ';
    proof {
        if r {
            assert(b@.take(7) =~= fragment_prefix());
        } else {
            if b@.take(7) == fragment_prefix() {
                assert(b@.take(7)[0] == '.');
                assert(b@.take(7)[1] == '.');
                assert(b@.take(7)[2] == '.');
                assert(b@.take(7)[3] == ' ');
                assert(b@.take(7)[4] == 'o');
                assert(b@.take(7)[5] == 'n');
                assert(b@.take(7)[6] == ' ');
            }
        }
    }
    r
}

fn index_value(b: &str) -> (r: Option<usize>)
    ensures
        r is Some <==> is_index_text(b@),
        r matches Some(n) ==> n as nat == decimal_value(b@),
{
    let len = b.unicode_len();
    if len == 0 {
        return None;
    }
    if len > 1 && b.get_char(0) == '0' {
        return None;
    }
    let mut v: usize = 0;
    let mut i: usize = 0;
    while i < len
        invariant
            len == b@.len(),
            i <= len,
            len == 1 || b@[0] != '0',
            forall|j: int| 0 <= j < i ==> is_digit(#[trigger] b@[j]),
            v as nat == decimal_value(b@.take(i as int)),
        decreases len - i,
    {
        let c = b.get_char(i);
        if !('0' <= c && c <= '9') {
            return None;
        }
        let d = (c as u32 - '0' as u32) as usize;
        assert(b@.take(i + 1).drop_last() =~= b@.take(i as int));
        if v > (usize::MAX - d) / 10 {
            proof {
                assert(v * 10 + d > usize::MAX) by (nonlinear_arith)
                    requires v > (usize::MAX - d) / 10, d < 10,
                ;
                lemma_value_prefix(b@, i + 1);
            }
            return None;
        }
        assert(v * 10 + d <= usize::MAX) by (nonlinear_arith)
            requires v <= (usize::MAX - d) / 10, d < 10,
        ;
        v = v * 10 + d;
        i = i + 1;
    }
    assert(b@.take(len as int) =~= b@);
    Some(v)
}

fn parse_body_str(b: &str, c: Option<Vec<String>>) -> (r: Option<PathElement>)
    ensures
        r is Some <==> parse_body(b@, conds_view(c)) is Some,
        r matches Some(x) ==> parse_body(b@, conds_view(c)) == Some(x@),
{
    let len = b.unicode_len();
    if len == 1 && b.get_char(0) == '@' {
        assert(b@ =~= seq!['@']);
        return Some(PathElement::Flatten(c));
    }
    if len > 0 && b.get_char(0) == '@' {
        assert(b@ != seq!['@']);
        return None;
    }
    assert(b@ != seq!['@']);
    if c.is_none() {
        match index_value(b) {
            Some(n) => {
                return Some(PathElement::Index(n));
            },
            None => {},
        }
    }
    Some(PathElement::Key(b.to_owned(), c))
}

fn parse_conds_str(t: &str) -> (r: Vec<String>)
    ensures
        r@.map_values(|x: String| x@) == parse_conds(t@),
{
    if t.unicode_len() == 0 {
        let r: Vec<String> = Vec::new();
        assert(r@.map_values(|x: String| x@) =~= Seq::<Seq<char>>::empty());
        r
    } else {
        split_str(t, ',')
    }
}

fn parse_element_str(e: &str) -> (r: Option<PathElement>)
    ensures
        r is Some <==> parse_element(e@) is Some,
        r matches Some(x) ==> parse_element(e@) == Some(x@),
{
    let len = e.unicode_len();
    if is_fragment_prefixed(e) {
        let name = e.substring_char(7, len).to_owned();
        return Some(PathElement::Fragment(name));
    }
    proof {
        lemma_find_suffix(e@, 0);
    }
    match find_suffix_str(e, 0) {
        None => parse_body_str(e, None),
        Some(b) => {
            if len - b >= 3 && e.get_char(len - 1) == ']' {
                let body = e.substring_char(0, b);
                let conds = parse_conds_str(e.substring_char(b + 2, len - 1));
                assert(body@ =~= e@.take(b as int));
                parse_body_str(body, Some(conds))
            } else {
                None
            }
        },
    }
}

impl Path {
    /// The elements of the path, in order.
    pub fn iter(&self) -> (r: &Vec<PathElement>)
        ensures
            r@ == self.0@,
    {
        &self.0
    }

    /// The canonical text of the path.
    pub fn to_string(&self) -> (r: String)
        ensures
            r@ == path_text(self@),
    {
        let mut out = String::new();
        write_path(&mut out, self);
        assert(out@ =~= path_text(self@));
        out
    }

    /// Reads a path from its text; fails where the text is not well formed.
    pub fn parse(s: &str) -> (r: Result<Path, PathError>)
        ensures
            r is Ok <==> parse_path_text(s@) is Some,
            r matches Ok(p) ==> parse_path_text(s@) == Some(p@),
            r matches Err(e) ==> e == PathError::InvalidPathSyntax,
    {
        let len = s.unicode_len();
        let mut elems: Vec<PathElement> = Vec::new();
        if len == 0 {
            assert(elems@.map_values(|e: PathElement| e@) =~= Seq::<ElemModel>::empty());
            return Ok(Path(elems));
        }
        if s.get_char(0) != '/' {
            return Err(PathError::InvalidPathSyntax);
        }
        let rest = s.substring_char(1, len);
        assert(rest@ =~= s@.drop_first());
        let segs = split_str(rest, '/');
        let ghost gs = segs@.map_values(|x: String| x@);
        let mut i: usize = 0;
        while i < segs.len()
            invariant
                gs == segs@.map_values(|x: String| x@),
                gs == split(s@.drop_first(), '/'),
                s@.len() > 0 && s@[0] == '/',
                i <= segs.len(),
                parse_elements(gs.take(i as int)) == Some(elems@.map_values(|e: PathElement| e@)),
            decreases segs.len() - i,
        {
            let ghost before = elems@.map_values(|e: PathElement| e@);
            match parse_element_str(segs[i].as_str()) {
                Some(x) => {
                    elems.push(x);
                    proof {
                        assert(gs.take(i + 1).drop_last() =~= gs.take(i as int));
                        assert(elems@.map_values(|e: PathElement| e@) =~= before.push(x@));
                    }
                },
                None => {
                    proof {
                        lemma_parse_elements_none(gs, i as int);
                        assert(gs == split(s@.drop_first(), '/'));
                        assert(parse_path_text(s@) == parse_elements(gs));
                    }
                    return Err(PathError::InvalidPathSyntax);
                },
            }
            i = i + 1;
        }
        assert(gs.take(i as int) =~= gs);
        Ok(Path(elems))
    }
}

proof fn lemma_parse_elements_none(segs: Seq<Seq<char>>, i: int)
    requires
        0 <= i < segs.len(),
        parse_element(segs[i]) is None,
    ensures
        parse_elements(segs) is None,
    decreases segs.len(),
{
    if i < segs.len() - 1 {
        lemma_parse_elements_none(segs.drop_last(), i);
    }
}

} // verus!
