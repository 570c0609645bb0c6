//! The rewrite pass: each fragment of the text is read as an element and the
//! requested attributes are cut out of the HTML elements.
use vstd::prelude::*;

use crate::component::{
    category_of, elem_name, elem_props, raw_text, Component, ComponentType, Content,
    ReactContent,
};
use crate::config::{target, Action};
use crate::text::{
    chars_of, join_lt, lemma_join_tag_split, lemma_tag_split_no_lt, lemma_tag_split_nonempty,
    push_range, remove_first, remove_first_exec, strip_bounds, strip_from, string_of_range,
    tag_split, views,
};

verus! {

/// A closing tag: the fragment starts with `/` once leading whitespace is skipped.
pub open spec fn is_closing(frag: Seq<char>) -> bool {
    let k = strip_from(frag, false, 0);
    k < frag.len() && frag[k] == '/'
}

/// The fragment opens an HTML element that carries the attribute `name`.
pub open spec fn carries(frag: Seq<char>, name: Seq<char>) -> bool {
    &&& !is_closing(frag)
    &&& category_of(elem_name(frag)) == ComponentType::HtmlElement
    &&& elem_props(frag).contains_key(name)
}

/// Some fragment after a `<` in `text` opens an HTML element that carries `name`.
pub open spec fn carried_in(text: Seq<char>, name: Seq<char>) -> bool {
    let f = tag_split(text);
    exists|i: int| 1 <= i < f.len() && carries(#[trigger] f[i], name)
}

/// One action applied to `cur`, the text of fragment `frag` as earlier actions left it.
pub open spec fn apply_action(cur: Seq<char>, frag: Seq<char>, a: Action) -> Seq<char> {
    let name = target(a);
    let props = elem_props(frag);
    if category_of(elem_name(frag)) == ComponentType::HtmlElement && props.contains_key(name) {
        remove_first(cur, raw_text(name, props[name]))
    } else {
        cur
    }
}

/// The actions applied in order to an opening fragment.
pub open spec fn apply_actions(frag: Seq<char>, actions: Seq<Action>) -> Seq<char>
    decreases actions.len(),
{
    if actions.len() == 0 {
        frag
    } else {
        apply_action(apply_actions(frag, actions.drop_last()), frag, actions.last())
    }
}

/// A fragment after the rewrite: closing tags stay as they are.
pub open spec fn rewrite_fragment(frag: Seq<char>, actions: Seq<Action>) -> Seq<char> {
    if is_closing(frag) {
        frag
    } else {
        apply_actions(frag, actions)
    }
}

/// The fragments of `text` after the rewrite; the text before the first `<` is kept.
pub open spec fn rewritten_pieces(text: Seq<char>, actions: Seq<Action>) -> Seq<Seq<char>> {
    let f = tag_split(text);
    Seq::new(
        f.len(),
        |i: int|
            if i == 0 {
                f[0]
            } else {
                rewrite_fragment(f[i], actions)
            },
    )
}

/// The whole text after the rewrite.
pub open spec fn rewritten(text: Seq<char>, actions: Seq<Action>) -> Seq<char> {
    join_lt(rewritten_pieces(text, actions))
}

fn rewrite_one(frag: &str, actions: &[Action]) -> (r: Vec<char>)
    ensures
        r@ == rewrite_fragment(frag@, actions@),
{
    let fc = chars_of(frag);
    let (a, _b) = strip_bounds(&fc, false);
    if a < fc.len() && fc[a] == '/' {
        return fc;
    }
    let component = Component::from(frag);
    let mut cur = chars_of(frag);
    let mut i: usize = 0;
    while i < actions.len()
        invariant
            i <= actions.len(),
            component.wf(),
            component.name@ == elem_name(frag@),
            component.typo == category_of(component.name@),
            component.props_map() == elem_props(frag@),
            cur@ == apply_actions(frag@, actions@.take(i as int)),
        decreases actions.len() - i,
    {
        assert(actions@.take(i + 1).drop_last() =~= actions@.take(i as int));
        match &actions[i] {
            Action::RemoveProp(p) => {
                let raw = component.get_raw_prop(p.as_str());
                if component.typo == ComponentType::HtmlElement {
                    match raw {
                        Some(rs) => {
                            let pat = chars_of(rs.as_str());
                            cur = remove_first_exec(&cur, &pat);
                        },
                        None => {},
                    }
                }
            },
        }
        i = i + 1;
    }
    assert(actions@.take(actions.len() as int) =~= actions@);
    cur
}

/// Rewrites `content`: every fragment that opens an HTML element loses the
/// first occurrence of each requested attribute's text; all else is kept.
pub fn apply_content_actions(content: ReactContent, actions: &[Action]) -> (r: String)
    ensures
        r@ == rewritten(content@, actions@),
{
    let frags = content.split_by_components();
    let ghost f = views(frags@);
    let ghost pieces = rewritten_pieces(content@, actions@);
    proof {
        lemma_tag_split_nonempty(content@);
    }
    let mut out = chars_of(frags[0].as_str());
    assert(pieces.take(1) =~= seq![f[0]]);
    let mut k: usize = 1;
    while k < frags.len()
        invariant
            1 <= k <= frags.len(),
            f == views(frags@),
            f == tag_split(content@),
            pieces == rewritten_pieces(content@, actions@),
            out@ == join_lt(pieces.take(k as int)),
        decreases frags.len() - k,
    {
        let updated = rewrite_one(frags[k].as_str(), actions);
        out.push('<');
        push_range(&mut out, &updated, 0, updated.len());
        proof {
            let p = pieces.take(k + 1);
            assert(p.drop_last() =~= pieces.take(k as int));
            assert(updated@.subrange(0, updated@.len() as int) =~= updated@);
            assert(out@ =~= join_lt(p.drop_last()) + seq!['<'] + p.last());
        }
        k = k + 1;
    }
    assert(pieces.take(frags.len() as int) =~= pieces);
    string_of_range(&out, 0, out.len())
}

proof fn lemma_actions_absent(frag: Seq<char>, actions: Seq<Action>)
    requires
        forall|k: int| 0 <= k < actions.len() ==> !carries(frag, #[trigger] target(actions[k])),
        !is_closing(frag),
    ensures
        apply_actions(frag, actions) == frag,
    decreases actions.len(),
{
    if actions.len() > 0 {
        lemma_actions_absent(frag, actions.drop_last());
        assert(!carries(frag, target(actions[actions.len() - 1])));
    }
}

/// Text without `<` holds no element and comes back unchanged.
pub proof fn lemma_no_tag_unchanged(text: Seq<char>, actions: Seq<Action>)
    requires
        forall|i: int| 0 <= i < text.len() ==> text[i] != '<',
    ensures
        rewritten(text, actions) == text,
{
    lemma_tag_split_no_lt(text);
    assert(rewritten_pieces(text, actions) =~= seq![text]);
}

/// Where no HTML element of the text carries any of the requested attributes,
/// the text comes back unchanged.
pub proof fn lemma_absent_unchanged(text: Seq<char>, actions: Seq<Action>)
    requires
        forall|k: int| 0 <= k < actions.len() ==> !carried_in(text, #[trigger] target(actions[k])),
    ensures
        rewritten(text, actions) == text,
{
    let f = tag_split(text);
    assert forall|i: int| 1 <= i < f.len() implies rewrite_fragment(f[i], actions) == f[i] by {
        if !is_closing(f[i]) {
            assert forall|k: int| 0 <= k < actions.len() implies !carries(
                f[i],
                #[trigger] target(actions[k]),
            ) by {
                assert(!carried_in(text, target(actions[k])));
            }
            lemma_actions_absent(f[i], actions);
        }
    }
    assert(rewritten_pieces(text, actions) =~= f);
    lemma_join_tag_split(text);
}

/// Once no HTML element of the output carries a requested attribute, running
/// the same actions again changes nothing.
pub proof fn lemma_idempotent_when_removed(text: Seq<char>, actions: Seq<Action>)
    requires
        forall|k: int|
            0 <= k < actions.len() ==> !carried_in(
                rewritten(text, actions),
                #[trigger] target(actions[k]),
            ),
    ensures
        rewritten(rewritten(text, actions), actions) == rewritten(text, actions),
{
    lemma_absent_unchanged(rewritten(text, actions), actions);
}

/// A fragment that opens a component (its name starts with an uppercase
/// letter) keeps all its attributes, whatever the actions.
pub proof fn lemma_component_untouched(frag: Seq<char>, actions: Seq<Action>)
    requires
        category_of(elem_name(frag)) == ComponentType::ReactComponent,
    ensures
        rewrite_fragment(frag, actions) == frag,
    decreases actions.len(),
{
    if actions.len() > 0 {
        lemma_component_untouched(frag, actions.drop_last());
    }
}

/// In the whole text, every fragment that opens a component comes out as it went in.
pub proof fn lemma_components_untouched_in_text(text: Seq<char>, actions: Seq<Action>)
    ensures
        forall|i: int|
            1 <= i < tag_split(text).len() && category_of(elem_name(tag_split(text)[i]))
                == ComponentType::ReactComponent ==> #[trigger] rewritten_pieces(text, actions)[i]
                == tag_split(text)[i],
{
    let f = tag_split(text);
    assert forall|i: int|
        1 <= i < f.len() && category_of(elem_name(f[i]))
            == ComponentType::ReactComponent implies #[trigger] rewritten_pieces(text, actions)[i]
        == f[i] by {
        lemma_component_untouched(f[i], actions);
    }
}

/// A boolean attribute (recorded without a value) is removed as its bare name.
pub proof fn lemma_boolean_removed_bare(cur: Seq<char>, frag: Seq<char>, a: Action)
    requires
        category_of(elem_name(frag)) == ComponentType::HtmlElement,
        elem_props(frag).contains_key(target(a)),
        elem_props(frag)[target(a)] is None,
    ensures
        apply_action(cur, frag, a) == remove_first(cur, target(a)),
{
}

} // verus!
