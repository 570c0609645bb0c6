//! Elements: a fragment of source text split into a name and its attributes.
use vstd::prelude::*;

use crate::text::{
    chars_of, cleaned, count_char, count_char_exec, find_char, find_char_exec, is_prop_delim,
    lemma_prop_tokens_nonempty, prop_tokens, push_char, push_range, strip_bounds,
    string_of_range, tag_split, trimmed, views,
};

verus! {

/// Source text, borrowed from the buffer it was read into.
pub type ReactContent<'a> = &'a str;

/// An attribute: its name and, unless it is a boolean attribute, its raw value.
pub type Prop = (String, Option<String>);

/// Views of source text that the tokenizer works on.
pub trait Content {
    /// The characters of the text.
    spec fn source_view(&self) -> Seq<char>;

    fn get_source(&self) -> (r: &str)
        ensures
            r@ == self.source_view(),
    ;

    /// The text without `\n`, spaces, `<`, `>` and `/` at both ends.
    fn clean_symbols(&self) -> (r: &str)
        ensures
            r@ == cleaned(self.source_view()),
    ;

    /// The attribute tokens: pieces that each end after a space, `>` or newline.
    fn split_by_props(&self) -> (r: Vec<String>)
        ensures
            views(r@) == prop_tokens(self.source_view()),
    ;

    /// The pieces between `<` characters.
    fn split_by_components(&self) -> (r: Vec<String>)
        ensures
            views(r@) == tag_split(self.source_view()),
    ;
}

impl<'a> Content for ReactContent<'a> {
    open spec fn source_view(&self) -> Seq<char> {
        (*self)@
    }

    fn get_source(&self) -> (r: &str) {
        *self
    }

    fn clean_symbols(&self) -> (r: &str) {
        let s = chars_of(*self);
        let (a, b) = strip_bounds(&s, true);
        self.substring_char(a, b)
    }

    fn split_by_props(&self) -> (r: Vec<String>) {
        let s = chars_of(*self);
        let mut done: Vec<String> = Vec::new();
        let mut cur = String::new();
        let mut has_cur = false;
        let mut i: usize = 0;
        while i < s.len()
            invariant
                i <= s.len(),
                s@ == (*self)@,
                has_cur == (cur@.len() > 0),
                prop_tokens(s@.take(i as int)) == views(done@) + if cur@.len() > 0 {
                    seq![cur@]
                } else {
                    Seq::empty()
                },
                done@.len() > 0 ==> done@.last()@.len() > 0 && is_prop_delim(
                    done@.last()@.last(),
                ),
                cur@.len() > 0 ==> !is_prop_delim(cur@.last()),
            decreases s.len() - i,
        {
            let c = s[i];
            let ghost before = cur@;
            assert(s@.take(i + 1).drop_last() =~= s@.take(i as int));
            push_char(&mut cur, c);
            has_cur = true;
            proof {
                if before.len() > 0 {
                    assert(prop_tokens(s@.take(i + 1)) =~= views(done@) + seq![cur@]);
                } else {
                    assert(views(done@) + Seq::<Seq<char>>::empty() =~= views(done@));
                    assert(cur@ =~= seq![c]);
                    assert(prop_tokens(s@.take(i + 1)) =~= views(done@) + seq![cur@]);
                }
            }
            if c == ' ' || c == '>' || c == '\n' {
                let ghost d = done@;
                done.push(cur);
                cur = String::new();
                has_cur = false;
                assert(views(done@) =~= views(d) + seq![done@.last()@]);
                assert(views(done@) + Seq::<Seq<char>>::empty() =~= views(done@));
            }
            i = i + 1;
        }
        assert(s@.take(s.len() as int) =~= s@);
        if has_cur {
            let ghost d = done@;
            done.push(cur);
            assert(views(done@) =~= views(d) + seq![done@.last()@]);
        } else {
            assert(views(done@) + Seq::<Seq<char>>::empty() =~= views(done@));
        }
        done
    }

    fn split_by_components(&self) -> (r: Vec<String>) {
        let s = chars_of(*self);
        let mut done: Vec<String> = Vec::new();
        let mut cur = String::new();
        let mut i: usize = 0;
        assert(s@.take(0) =~= Seq::<char>::empty());
        assert(views(done@).push(cur@) =~= seq![Seq::<char>::empty()]);
        while i < s.len()
            invariant
                i <= s.len(),
                s@ == (*self)@,
                tag_split(s@.take(i as int)) == views(done@).push(cur@),
            decreases s.len() - i,
        {
            let c = s[i];
            assert(s@.take(i + 1).drop_last() =~= s@.take(i as int));
            let ghost d = done@;
            if c == '<' {
                done.push(cur);
                cur = String::new();
                assert(views(done@) =~= views(d).push(done@.last()@));
            } else {
                push_char(&mut cur, c);
                assert(tag_split(s@.take(i + 1)) =~= views(done@).push(cur@));
            }
            i = i + 1;
        }
        assert(s@.take(s.len() as int) =~= s@);
        let ghost d = done@;
        done.push(cur);
        assert(views(done@) =~= views(d).push(done@.last()@));
        done
    }
}

/// The category of an element, from the first character of its name.
#[derive(Debug, PartialEq, Eq, Structural, Clone, Copy)]
pub enum ComponentType {
    HtmlElement,
    ReactComponent,
    Unknown,
}

/// Whether `char::is_uppercase` holds of a character (Unicode `Uppercase`).
pub uninterp spec fn upper_of(c: char) -> bool;

/// Relies on `char::is_uppercase`: whether the character has the Unicode
/// `Uppercase` property, a function of the character alone.
#[verifier::external_body]
fn is_upper(c: char) -> (r: bool)
    ensures
        r == upper_of(c),
{
    c.is_uppercase()
}

/// Category of an element named `name`.
pub open spec fn category_of(name: Seq<char>) -> ComponentType {
    if name.len() == 0 {
        ComponentType::Unknown
    } else if upper_of(name[0]) {
        ComponentType::ReactComponent
    } else {
        ComponentType::HtmlElement
    }
}

impl ComponentType {
    /// `ReactComponent` when the name starts with an uppercase letter,
    /// `Unknown` when it is empty, `HtmlElement` otherwise.
    pub fn from(name: &str) -> (r: Self)
        ensures
            r == category_of(name@),
    {
        let s = chars_of(name);
        if s.len() == 0 {
            ComponentType::Unknown
        } else if is_upper(s[0]) {
            ComponentType::ReactComponent
        } else {
            ComponentType::HtmlElement
        }
    }
}

/// Concatenation of the tokens `t[j..k]`.
pub open spec fn join_tokens(t: Seq<Seq<char>>, j: int, k: int) -> Seq<char>
    decreases k - j,
{
    if k <= j {
        Seq::empty()
    } else {
        join_tokens(t, j, k - 1) + t[k - 1]
    }
}

/// Whether a token holds a back-tick.
pub open spec fn has_backtick(tok: Seq<char>) -> bool {
    find_char(tok, '`', 0) < tok.len()
}

/// Index just past the first token at or after `k` that holds a back-tick
/// (`t.len()` when none does): where an open template literal closes.
pub open spec fn literal_end(t: Seq<Seq<char>>, k: int) -> int
    decreases t.len() - k,
{
    if k < 0 || k >= t.len() {
        t.len() as int
    } else if has_backtick(t[k]) {
        k + 1
    } else {
        literal_end(t, k + 1)
    }
}

/// An attribute's text split at its first `=` into name and raw value; without
/// `=`, the whole text names a boolean attribute.
pub open spec fn attr_of(text: Seq<char>) -> (Seq<char>, Option<Seq<char>>) {
    let e = find_char(text, '=', 0);
    if e < text.len() {
        (text.take(e), Some(text.skip(e + 1)))
    } else {
        (text, None)
    }
}

proof fn lemma_find_char_absent(s: Seq<char>, c: char, i: int)
    requires
        0 <= i <= s.len(),
        forall|k: int| i <= k < s.len() ==> s[k] != c,
    ensures
        find_char(s, c, i) == s.len(),
    decreases s.len() - i,
{
    if i < s.len() {
        lemma_find_char_absent(s, c, i + 1);
    }
}

/// Attribute text without `=` is a boolean attribute: the whole text is its
/// name and it has no value, so its raw form is the bare name.
pub proof fn lemma_boolean_attr(text: Seq<char>)
    requires
        forall|k: int| 0 <= k < text.len() ==> text[k] != '=',
    ensures
        attr_of(text) == (text, None::<Seq<char>>),
        raw_text(attr_of(text).0, attr_of(text).1) == text,
{
    lemma_find_char_absent(text, '=', 0);
}

/// The attributes found from token `j` on, added to `acc`.
pub open spec fn scan_props(t: Seq<Seq<char>>, j: int, acc: Map<Seq<char>, Option<Seq<char>>>) -> Map<
    Seq<char>,
    Option<Seq<char>>,
>
    decreases t.len() - j,
    via scan_props_decreases
{
    if j < 0 || j >= t.len() {
        acc
    } else {
        let tok = t[j];
        let tr = trimmed(tok);
        if tr.len() == 0 {
            scan_props(t, j + 1, acc)
        } else if tr == seq!['>'] || tr == seq!['/', '>'] {
            acc
        } else {
            let end = if count_char(tok, '`') % 2 == 1 {
                literal_end(t, j + 1)
            } else {
                j + 1
            };
            let attr = attr_of(cleaned(join_tokens(t, j, end)));
            let acc2 = acc.insert(attr.0, attr.1);
            if tok.last() == '>' {
                acc2
            } else {
                scan_props(t, end, acc2)
            }
        }
    }
}

/// A template literal closes at or after where it is looked for, and within the tokens.
pub proof fn lemma_literal_end_bounds(t: Seq<Seq<char>>, k: int)
    requires
        0 <= k <= t.len(),
    ensures
        k <= literal_end(t, k) <= t.len(),
    decreases t.len() - k,
{
    if k < t.len() && !has_backtick(t[k]) {
        lemma_literal_end_bounds(t, k + 1);
    }
}

#[via_fn]
proof fn scan_props_decreases(
    t: Seq<Seq<char>>,
    j: int,
    acc: Map<Seq<char>, Option<Seq<char>>>,
) {
    if 0 <= j < t.len() {
        lemma_literal_end_bounds(t, j + 1);
    }
}

/// Bare name of the element a fragment opens.
pub open spec fn elem_name(frag: Seq<char>) -> Seq<char> {
    let t = prop_tokens(frag);
    if t.len() == 0 {
        Seq::empty()
    } else {
        cleaned(t[0])
    }
}

/// Attributes of the element a fragment opens; none when its first token ends with `>`.
pub open spec fn elem_props(frag: Seq<char>) -> Map<Seq<char>, Option<Seq<char>>> {
    let t = prop_tokens(frag);
    if t.len() == 0 || t[0].last() == '>' {
        Map::empty()
    } else {
        scan_props(t, 1, Map::empty())
    }
}

/// An attribute's text as it stands in the source: `name=value`, or `name` alone.
pub open spec fn raw_text(name: Seq<char>, value: Option<Seq<char>>) -> Seq<char> {
    match value {
        Some(v) => name + seq!['='] + v,
        None => name,
    }
}

/// View of a stored attribute.
pub open spec fn prop_view(p: Prop) -> (Seq<char>, Option<Seq<char>>) {
    (
        p.0@,
        match p.1 {
            Some(v) => Some(v@),
            None => None,
        },
    )
}

/// The map that a list of attributes gives, a later entry winning over an earlier one.
pub open spec fn pairs_map(s: Seq<(Seq<char>, Option<Seq<char>>)>) -> Map<
    Seq<char>,
    Option<Seq<char>>,
>
    decreases s.len(),
{
    if s.len() == 0 {
        Map::empty()
    } else {
        pairs_map(s.drop_last()).insert(s.last().0, s.last().1)
    }
}

pub open spec fn keys_unique(s: Seq<(Seq<char>, Option<Seq<char>>)>) -> bool {
    forall|i: int, j: int| 0 <= i < j < s.len() ==> s[i].0 != s[j].0
}

proof fn lemma_pairs_map_absent(s: Seq<(Seq<char>, Option<Seq<char>>)>, k: Seq<char>)
    requires
        forall|i: int| 0 <= i < s.len() ==> s[i].0 != k,
    ensures
        !pairs_map(s).contains_key(k),
    decreases s.len(),
{
    if s.len() > 0 {
        lemma_pairs_map_absent(s.drop_last(), k);
    }
}

proof fn lemma_pairs_map_at(s: Seq<(Seq<char>, Option<Seq<char>>)>, i: int)
    requires
        keys_unique(s),
        0 <= i < s.len(),
    ensures
        pairs_map(s).contains_key(s[i].0),
        pairs_map(s)[s[i].0] == s[i].1,
    decreases s.len(),
{
    if i < s.len() - 1 {
        lemma_pairs_map_at(s.drop_last(), i);
    }
}

proof fn lemma_pairs_map_len(s: Seq<(Seq<char>, Option<Seq<char>>)>)
    requires
        keys_unique(s),
    ensures
        pairs_map(s).dom().finite(),
        pairs_map(s).dom().len() == s.len(),
    decreases s.len(),
{
    if s.len() > 0 {
        let d = s.drop_last();
        lemma_pairs_map_len(d);
        lemma_pairs_map_absent(d, s.last().0);
    }
}

proof fn lemma_pairs_map_update(
    s: Seq<(Seq<char>, Option<Seq<char>>)>,
    i: int,
    v: Option<Seq<char>>,
)
    requires
        keys_unique(s),
        0 <= i < s.len(),
    ensures
        pairs_map(s.update(i, (s[i].0, v))) == pairs_map(s).insert(s[i].0, v),
    decreases s.len(),
{
    let u = s.update(i, (s[i].0, v));
    if i == s.len() - 1 {
        assert(u.drop_last() =~= s.drop_last());
        assert(pairs_map(u) =~= pairs_map(s).insert(s[i].0, v));
    } else {
        let d = s.drop_last();
        lemma_pairs_map_update(d, i, v);
        assert(u.drop_last() =~= d.update(i, (s[i].0, v)));
        assert(pairs_map(u) =~= pairs_map(s).insert(s[i].0, v));
    }
}

/// An element: its name, its category and its attributes, over the fragment
/// of source text it was read from.
#[derive(Debug, PartialEq)]
pub struct Component<'a> {
    pub name: String,
    pub typo: ComponentType,
    pub content: ReactContent<'a>,
    pub props: Vec<Prop>,
}

impl<'a> Component<'a> {
    /// The stored attributes, viewed.
    pub open spec fn prop_seq(&self) -> Seq<(Seq<char>, Option<Seq<char>>)> {
        self.props@.map_values(|p: Prop| prop_view(p))
    }

    /// The attributes, by name.
    pub open spec fn props_map(&self) -> Map<Seq<char>, Option<Seq<char>>> {
        pairs_map(self.prop_seq())
    }

    /// No attribute is stored twice.
    pub open spec fn wf(&self) -> bool {
        keys_unique(self.prop_seq())
    }

    /// An element without attributes; its category comes from its name.
    pub fn new(name: String, content: ReactContent<'a>) -> (r: Self)
        ensures
            r.wf(),
            r.name == name,
            r.typo == category_of(name@),
            r.content == content,
            r.props_map() == Map::<Seq<char>, Option<Seq<char>>>::empty(),
    {
        let typo = ComponentType::from(name.as_str());
        let r = Self { name, typo, content, props: Vec::new() };
        assert(r.prop_seq() =~= Seq::empty());
        r
    }

    /// Reads an element from a fragment: its name is the first token, cleaned
    /// of the symbols around it; attributes follow unless that token ends with `>`.
    pub fn from(content: ReactContent<'a>) -> (r: Self)
        ensures
            r.wf(),
            r.name@ == elem_name(content@),
            r.typo == category_of(r.name@),
            r.content == content,
            r.props_map() == elem_props(content@),
    {
        let toks = content.split_by_props();
        let ghost t = views(toks@);
        proof {
            lemma_prop_tokens_nonempty(content@);
        }
        if toks.len() == 0 {
            let r = Self::new(String::new(), content);
            return r;
        }
        let first = chars_of(toks[0].as_str());
        assert(first@ == t[0]);
        let (a, b) = strip_bounds(&first, true);
        let name = string_of_range(&first, a, b);
        let mut component = Self::new(name, content);
        if first[first.len() - 1] == '>' {
            return component;
        }
        let ghost whole = scan_props(t, 1, Map::empty());
        let mut j: usize = 1;
        while j < toks.len()
            invariant
                t == views(toks@),
                t == prop_tokens(content@),
                forall|i: int| 0 <= i < t.len() ==> #[trigger] t[i].len() > 0,
                1 <= j <= toks.len(),
                component.wf(),
                component.name@ == elem_name(content@),
                component.typo == category_of(component.name@),
                component.content == content,
                whole == scan_props(t, j as int, component.props_map()),
            decreases toks.len() - j,
        {
            let tok = chars_of(toks[j].as_str());
            assert(tok@ == t[j as int]);
            let (a, b) = strip_bounds(&tok, false);
            let ghost tr = tok@.subrange(a as int, b as int);
            if a == b {
                assert(tr.len() == 0);
                j = j + 1;
            } else if (b - a == 1 && tok[a] == '>') || (b - a == 2 && tok[a] == '/' && tok[a + 1]
                == '>') {
                assert(tr =~= seq!['>'] || tr =~= seq!['/', '>']);
                j = toks.len();
            } else {
                proof {
                    if tr.len() == 1 {
                        assert(tr[0] == tok@[a as int]);
                    }
                    if tr.len() == 2 {
                        assert(tr[0] == tok@[a as int] && tr[1] == tok@[a + 1]);
                    }
                }
                assert(tr != seq!['>'] && tr != seq!['/', '>']);
                let mut text = chars_of(toks[j].as_str());
                let mut end: usize = j + 1;
                assert(join_tokens(t, j as int, j as int) =~= Seq::<char>::empty());
                assert(join_tokens(t, j as int, j + 1) =~= t[j as int]);
                if count_char_exec(&tok, '`') % 2 == 1 {
                    let mut closed = false;
                    while end < toks.len() && !closed
                        invariant
                            t == views(toks@),
                            j < end <= toks.len(),
                            text@ == join_tokens(t, j as int, end as int),
                            closed ==> literal_end(t, j + 1) == end,
                            !closed ==> literal_end(t, j + 1) == literal_end(t, end as int),
                        decreases toks.len() - end,
                    {
                        let nt = chars_of(toks[end].as_str());
                        assert(nt@ == t[end as int]);
                        push_range(&mut text, &nt, 0, nt.len());
                        assert(nt@.subrange(0, nt@.len() as int) =~= nt@);
                        if find_char_exec(&nt, '`') < nt.len() {
                            closed = true;
                        }
                        end = end + 1;
                    }
                }
                let (ca, cb) = strip_bounds(&text, true);
                let mut cl: Vec<char> = Vec::new();
                push_range(&mut cl, &text, ca, cb);
                assert(cl@ =~= cleaned(text@));
                let e = find_char_exec(&cl, '=');
                if e < cl.len() {
                    let pname = string_of_range(&cl, 0, e);
                    let pvalue = string_of_range(&cl, e + 1, cl.len());
                    assert(cl@.subrange(0, e as int) =~= cl@.take(e as int));
                    assert(cl@.subrange(e + 1, cl@.len() as int) =~= cl@.skip(e + 1));
                    component.add_prop((pname, Some(pvalue)));
                } else {
                    let pname = string_of_range(&cl, 0, cl.len());
                    assert(cl@.subrange(0, cl@.len() as int) =~= cl@);
                    component.add_prop((pname, None));
                }
                if tok[tok.len() - 1] == '>' {
                    j = toks.len();
                } else {
                    j = end;
                }
            }
        }
        component
    }

    /// Records an attribute; one already stored under the same name is replaced.
    pub fn add_prop(&mut self, prop: Prop) -> (r: &mut Self)
        requires
            old(self).wf(),
        ensures
            r.wf(),
            r.name == old(self).name,
            r.typo == old(self).typo,
            r.content == old(self).content,
            r.props_map() == old(self).props_map().insert(prop_view(prop).0, prop_view(prop).1),
            *final(self) == *final(r),
    {
        let ghost pv = prop_view(prop);
        let ghost s0 = self.prop_seq();
        let mut i: usize = 0;
        while i < self.props.len()
            invariant
                i <= self.props.len(),
                *self == *old(self),
                self.wf(),
                pv == prop_view(prop),
                self.prop_seq() == s0,
                s0.len() == self.props.len(),
                forall|k: int| 0 <= k < i ==> s0[k].0 != pv.0,
            decreases self.props.len() - i,
        {
            assert(s0[i as int] == prop_view(self.props@[i as int]));
            if self.props[i].0 == prop.0 {
                let ghost ps = self.props@;
                self.props.set(i, prop);
                proof {
                    assert(self.props@ == ps.update(i as int, prop));
                    assert(s0[i as int].0 == pv.0);
                    lemma_pairs_map_update(s0, i as int, pv.1);
                    assert(self.prop_seq() =~= s0.update(i as int, (s0[i as int].0, pv.1)));
                }
                return self;
            }
            i = i + 1;
        }
        self.props.push(prop);
        proof {
            assert(self.prop_seq() =~= s0.push(pv));
            assert(self.prop_seq().drop_last() =~= s0);
        }
        self
    }

    /// Number of distinct attributes.
    pub fn props_len(&self) -> (r: usize)
        requires
            self.wf(),
        ensures
            r == self.props_map().dom().len(),
    {
        proof {
            lemma_pairs_map_len(self.prop_seq());
        }
        self.props.len()
    }

    /// The attribute stored under `name`, if any.
    pub fn get_prop(&self, name: &str) -> (r: Option<&Prop>)
        requires
            self.wf(),
        ensures
            r is Some <==> self.props_map().contains_key(name@),
            r matches Some(p) ==> prop_view(*p) == (name@, self.props_map()[name@]),
    {
        let key = name.to_owned();
        let mut i: usize = 0;
        while i < self.props.len()
            invariant
                i <= self.props.len(),
                self.wf(),
                key@ == name@,
                self.prop_seq().len() == self.props.len(),
                forall|k: int| 0 <= k < i ==> self.prop_seq()[k].0 != name@,
            decreases self.props.len() - i,
        {
            assert(self.prop_seq()[i as int] == prop_view(self.props@[i as int]));
            if self.props[i].0 == key {
                proof {
                    lemma_pairs_map_at(self.prop_seq(), i as int);
                }
                return Some(&self.props[i]);
            }
            i = i + 1;
        }
        proof {
            lemma_pairs_map_absent(self.prop_seq(), name@);
        }
        None
    }

    /// If the attribute `name` is present, its text as written: `name=value`,
    /// or `name` alone for a boolean attribute.
    pub fn get_raw_prop(&self, name: &str) -> (r: Option<String>)
        requires
            self.wf(),
        ensures
            r is Some <==> self.props_map().contains_key(name@),
            r matches Some(s) ==> s@ == raw_text(name@, self.props_map()[name@]),
    {
        match self.get_prop(name) {
            Some(p) => {
                let mut s = p.0.clone();
                match &p.1 {
                    Some(v) => {
                        push_char(&mut s, '=');
                        s.append(v.as_str());
                    },
                    None => {},
                }
                Some(s)
            },
            None => None,
        }
    }
}

} // verus!
