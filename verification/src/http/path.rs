//! The segments of a request path, and the style that they name.

use vstd::prelude::*;
use crate::options::{sound, style_url_of, StyleCatalog};
use crate::text::{
    chars_of, contains, law_the_first_mark_splits, lemma_position, occurs, position, split, split_on,
    string_of, views,
};
use crate::types::StyleRevision;

verus! {

/// What is wrong with a request.
#[derive(Clone, Debug, PartialEq, Eq)]
pub enum IngressError {
    InvalidRequest(String),
    UnknownStyle(String),
}

/// What is wrong with a request, as plain text.
pub enum IngressFault {
    InvalidRequest(Seq<char>),
    UnknownStyle(Seq<char>),
}

impl View for IngressError {
    type V = IngressFault;

    open spec fn view(&self) -> IngressFault {
        match self {
            IngressError::InvalidRequest(text) => IngressFault::InvalidRequest(text@),
            IngressError::UnknownStyle(id) => IngressFault::UnknownStyle(id@),
        }
    }
}

/// The pieces that are not empty.
pub open spec fn filled(pieces: Seq<Seq<char>>) -> Seq<Seq<char>>
    decreases pieces.len(),
{
    if pieces.len() == 0 {
        seq![]
    } else {
        let rest = filled(pieces.drop_last());
        if pieces.last().len() == 0 {
            rest
        } else {
            rest.push(pieces.last())
        }
    }
}

/// The segments of a path: what stands between its slashes.
pub open spec fn segments(path: Seq<char>) -> Seq<Seq<char>> {
    filled(split_on(path, '/'))
}

/// Cuts a path into its segments.
pub fn path_parts(path: &str) -> (r: Vec<Vec<char>>)
    ensures
        views(r@) == segments(path@),
{
    let pieces = split(&chars_of(path), '/');
    let ghost all = views(pieces@);
    let mut out: Vec<Vec<char>> = Vec::new();
    assert(views(out@) =~= filled(all.take(0)));
    let mut i: usize = 0;
    while i < pieces.len()
        invariant
            i <= pieces.len(),
            all == views(pieces@),
            views(out@) == filled(all.take(i as int)),
        decreases pieces.len() - i,
    {
        assert(all.take(i + 1).drop_last() =~= all.take(i as int));
        assert(all.take(i + 1).last() == pieces@[i as int]@);
        if pieces[i].len() > 0 {
            let ghost before = views(out@);
            let piece = pieces[i].clone();
            assert(piece@ =~= pieces@[i as int]@);
            out.push(piece);
            assert(views(out@) =~= before.push(pieces@[i as int]@));
        }
        i += 1;
    }
    assert(all.take(i as int) =~= all);
    out
}

/// Segments with slashes between them.
pub open spec fn joined(parts: Seq<Seq<char>>) -> Seq<char>
    decreases parts.len(),
{
    if parts.len() == 0 {
        seq![]
    } else if parts.len() == 1 {
        parts[0]
    } else {
        joined(parts.drop_last()).push('/') + parts.last()
    }
}

/// What is wrong with one component of a path.
pub open spec fn component_fault(value: Seq<char>, name: Seq<char>) -> Option<Seq<char>> {
    if value.len() == 0 {
        Some(name + " must not be empty"@)
    } else if occurs(value, ".."@) {
        Some(name + " must not contain `..`"@)
    } else {
        None
    }
}

/// A component is neither empty nor does it hold `..`.
pub fn validate_path_component(value: &[char], name: &str) -> (r: Result<(), IngressError>)
    ensures
        match component_fault(value@, name@) {
            Some(text) => r is Err && r->Err_0@ == IngressFault::InvalidRequest(text),
            None => r is Ok,
        },
{
    if value.len() == 0 {
        let mut text = name.to_owned();
        text.push_str(" must not be empty");
        return Err(IngressError::InvalidRequest(text));
    }
    if contains(value, "..") {
        let mut text = name.to_owned();
        text.push_str(" must not contain `..`");
        return Err(IngressError::InvalidRequest(text));
    }
    Ok(())
}

/// What is wrong with the first bad component of a style id.
pub open spec fn style_id_fault(parts: Seq<Seq<char>>) -> Option<Seq<char>>
    decreases parts.len(),
{
    if parts.len() == 0 {
        None
    } else {
        match style_id_fault(parts.drop_last()) {
            Some(text) => Some(text),
            None => component_fault(parts.last(), "style_id"@),
        }
    }
}

/// The style id that path components spell.
pub fn resolve_style_id(components: &[Vec<char>]) -> (r: Result<String, IngressError>)
    ensures
        match style_id_fault(views(components@)) {
            Some(text) => r is Err && r->Err_0@ == IngressFault::InvalidRequest(text),
            None => r is Ok && r->Ok_0@ == joined(views(components@)),
        },
{
    let ghost all = views(components@);
    let mut out: Vec<char> = Vec::new();
    let mut failed: Option<IngressError> = None;
    assert(all.take(0) =~= seq![]);
    let mut i: usize = 0;
    while i < components.len()
        invariant
            i <= components.len(),
            all == views(components@),
            match failed {
                Some(e) => style_id_fault(all.take(i as int)) is Some && e@
                    == IngressFault::InvalidRequest(style_id_fault(all.take(i as int))->0),
                None => style_id_fault(all.take(i as int)) is None,
            },
            out@ == joined(all.take(i as int)),
        decreases components.len() - i,
    {
        let ghost before = out@;
        assert(all.take(i + 1).drop_last() =~= all.take(i as int));
        assert(all.take(i + 1).last() == components@[i as int]@);
        if failed.is_none() {
            match validate_path_component(&components[i], "style_id") {
                Ok(()) => {},
                Err(e) => {
                    failed = Some(e);
                },
            }
        }
        if i > 0 {
            out.push('/');
        }
        let ghost head = out@;
        let mut k: usize = 0;
        while k < components[i].len()
            invariant
                i < components.len(),
                k <= components@[i as int]@.len(),
                out@ == head + components@[i as int]@.take(k as int),
            decreases components@[i as int]@.len() - k,
        {
            out.push(components[i][k]);
            assert(components@[i as int]@.take(k + 1) =~= components@[i as int]@.take(
                k as int,
            ).push(components@[i as int]@[k as int]));
            k += 1;
        }
        assert(components@[i as int]@.take(k as int) =~= components@[i as int]@);
        assert(out@ =~= joined(all.take(i + 1)));
        i += 1;
    }
    assert(all.take(i as int) =~= all);
    match failed {
        Some(e) => Err(e),
        None => Ok(string_of(&out)),
    }
}

/// A style that the catalog knows.
#[derive(Debug)]
pub struct ResolvedStyle {
    pub revision: StyleRevision,
}

/// The latest revision of a style, or that the catalog does not know it.
pub fn resolve_style(catalog: &StyleCatalog, style_id: String) -> (r: Result<
    ResolvedStyle,
    IngressError,
>)
    requires
        sound(catalog.templates@),
    ensures
        match style_url_of(catalog.templates@, style_id@) {
            Some(_) => r is Ok && r->Ok_0.revision.id@ == style_id@ && r->Ok_0.revision.version
                == 1,
            None => r is Err && r->Err_0@ == IngressFault::UnknownStyle(style_id@),
        },
{
    let mut revision = StyleRevision { id: style_id, version: 0 };
    match catalog.resolve_latest(&revision) {
        Some(version) => {
            revision.version = version;
            Ok(ResolvedStyle { revision })
        },
        None => Err(IngressError::UnknownStyle(revision.id)),
    }
}

proof fn lemma_split_behind(s: Seq<char>, c: char, tail: Seq<char>)
    requires
        !tail.contains(c),
    ensures
        split_on(s.push(c) + tail, c) == split_on(s, c).push(tail),
    decreases s.len(),
{
    lemma_position(s, c);
    let p = position(s, c);
    let whole = s.push(c) + tail;
    if p >= s.len() {
        assert(!s.contains(c)) by {
            if s.contains(c) {
                let i = choose|i: int| 0 <= i < s.len() && s[i] == c;
                assert(s[i] != c);
            }
        }
        law_the_first_mark_splits(s, c, tail);
        law_the_first_mark_splits(tail, c, tail);
        assert(seq![s] + seq![tail] =~= seq![s].push(tail));
    } else {
        let head = s.take(p);
        let rest = s.skip(p + 1);
        assert(!head.contains(c)) by {
            if head.contains(c) {
                let i = choose|i: int| 0 <= i < head.len() && head[i] == c;
                assert(s[i] != c);
            }
        }
        assert(head.push(c) + rest =~= s);
        lemma_split_behind(rest, c, tail);
        law_the_first_mark_splits(head, c, rest);
        law_the_first_mark_splits(head, c, rest.push(c) + tail);
        assert(whole =~= head.push(c) + (rest.push(c) + tail));
        assert(seq![head] + split_on(rest, c).push(tail) =~= (seq![head] + split_on(rest, c)).push(
            tail,
        ));
    }
}

/// A path is cut at its slashes: a segment behind one more slash comes last, and a slash
/// at the end, like every slash next to another, adds none.
pub proof fn law_paths_are_cut_at_slashes(path: Seq<char>, segment: Seq<char>)
    requires
        !segment.contains('/'),
        segment.len() > 0,
    ensures
        segments(path.push('/') + segment) == segments(path).push(segment),
        segments(path.push('/')) == segments(path),
        segments(segment) == seq![segment],
        segments(Seq::empty()) == Seq::<Seq<char>>::empty(),
{
    let none = Seq::<char>::empty();
    lemma_split_behind(path, '/', segment);
    lemma_split_behind(path, '/', none);
    assert(path.push('/') + none =~= path.push('/'));
    assert(split_on(path, '/').push(segment).drop_last() =~= split_on(path, '/'));
    assert(split_on(path, '/').push(none).drop_last() =~= split_on(path, '/'));
    law_the_first_mark_splits(segment, '/', none);
    law_the_first_mark_splits(none, '/', none);
    assert(seq![segment].drop_last() =~= Seq::<Seq<char>>::empty());
    assert(seq![none].drop_last() =~= Seq::<Seq<char>>::empty());
    assert(filled(Seq::<Seq<char>>::empty()) =~= Seq::<Seq<char>>::empty());
    assert(filled(seq![segment]) =~= seq![segment]);
    assert(filled(seq![none]) =~= Seq::<Seq<char>>::empty());
}

/// The id of a style is its segments with slashes between them, and is cut into the same
/// segments again.
pub proof fn law_style_ids_keep_their_segments(parts: Seq<Seq<char>>)
    requires
        forall|i: int|
            0 <= i < parts.len() ==> (#[trigger] parts[i]).len() > 0 && !parts[i].contains('/'),
    ensures
        segments(joined(parts)) == parts,
    decreases parts.len(),
{
    if parts.len() == 0 {
        assert(joined(parts) =~= Seq::<char>::empty());
        assert(!seq!['a'].contains('/'));
        law_paths_are_cut_at_slashes(Seq::empty(), seq!['a']);
        assert(parts =~= Seq::<Seq<char>>::empty());
    } else if parts.len() == 1 {
        law_paths_are_cut_at_slashes(Seq::empty(), parts[0]);
        assert(parts =~= seq![parts[0]]);
    } else {
        let front = parts.drop_last();
        assert forall|i: int| 0 <= i < front.len() implies (#[trigger] front[i]).len() > 0
            && !front[i].contains('/') by {
            assert(front[i] == parts[i]);
        }
        law_style_ids_keep_their_segments(front);
        let last = parts[parts.len() - 1];
        law_paths_are_cut_at_slashes(joined(front), last);
        assert(front.push(last) =~= parts);
    }
}

proof fn lemma_style_id_faults(parts: Seq<Seq<char>>)
    ensures
        style_id_fault(parts) is None <==> forall|i: int|
            0 <= i < parts.len() ==> component_fault(#[trigger] parts[i], "style_id"@) is None,
    decreases parts.len(),
{
    if parts.len() > 0 {
        let front = parts.drop_last();
        lemma_style_id_faults(front);
        assert forall|i: int| 0 <= i < front.len() implies front[i] == #[trigger] parts[i] by {}
        assert(parts[parts.len() - 1] == parts.last());
        if style_id_fault(parts) is None {
            assert forall|i: int| 0 <= i < parts.len() implies component_fault(
                #[trigger] parts[i],
                "style_id"@,
            ) is None by {
                if i < front.len() {
                    assert(front[i] == parts[i]);
                }
            }
        } else if forall|i: int|
            0 <= i < parts.len() ==> component_fault(#[trigger] parts[i], "style_id"@) is None {
            assert forall|i: int| 0 <= i < front.len() implies component_fault(
                #[trigger] front[i],
                "style_id"@,
            ) is None by {
                assert(component_fault(parts[i], "style_id"@) is None);
            }
        }
    }
}

/// The segments of a style's id are refused just if one of them is empty or holds two dots
/// in a row.
pub proof fn law_style_ids_hold_no_dots_in_a_row(parts: Seq<Seq<char>>)
    ensures
        style_id_fault(parts) is None <==> forall|i: int|
            0 <= i < parts.len() ==> (#[trigger] parts[i]).len() > 0 && !occurs(parts[i], ".."@),
{
    lemma_style_id_faults(parts);
    if style_id_fault(parts) is None {
        assert forall|i: int| 0 <= i < parts.len() implies (#[trigger] parts[i]).len() > 0
            && !occurs(parts[i], ".."@) by {
            assert(component_fault(parts[i], "style_id"@) is None);
        }
    } else if forall|i: int|
        0 <= i < parts.len() ==> (#[trigger] parts[i]).len() > 0 && !occurs(parts[i], ".."@) {
        assert forall|i: int| 0 <= i < parts.len() implies component_fault(
            #[trigger] parts[i],
            "style_id"@,
        ) is None by {}
    }
}

} // verus!
