use vstd::prelude::*;

use crate::text::{is_white_space, join_chars, join_strs, split_chars, split_str, trim, trim_end_ws, trim_start_ws, trimmed, views};

verus! {

/// The tags of a dataset as stored: joined with `;`.
pub fn join_tags(tags: &Vec<String>) -> (r: String)
    ensures
        r@ == join_chars(views(tags@), seq![';']),
{
    let r = join_strs(tags, ";");
    proof {
        reveal_strlit(";");
        assert(";"@ =~= seq![';']);
    }
    r
}

/// The tags of a dataset read back from storage: the stored text split at
/// every `;`, each piece trimmed.
pub fn parse_tags(tags_str: &str) -> (r: Vec<String>)
    ensures
        views(r@) == split_chars(tags_str@, ';').map_values(|p: Seq<char>| trimmed(p)),
{
    let pieces = split_str(tags_str, ';');
    let mut out: Vec<String> = Vec::new();
    let mut k: usize = 0;
    while k < pieces.len()
        invariant
            k <= pieces@.len(),
            views(pieces@) == split_chars(tags_str@, ';'),
            views(out@) == views(pieces@).take(k as int).map_values(|p: Seq<char>| trimmed(p)),
        decreases pieces.len() - k,
    {
        let t = trim(pieces[k].as_str());
        let ghost before = out@;
        out.push(t);
        proof {
            assert(views(out@) =~= views(before).push(trimmed(pieces@[k as int]@)));
            assert(views(pieces@).take(k + 1).map_values(|p: Seq<char>| trimmed(p)) =~= views(pieces@).take(
                k as int,
            ).map_values(|p: Seq<char>| trimmed(p)).push(trimmed(views(pieces@)[k as int])));
        }
        k = k + 1;
    }
    assert(views(pieces@).take(k as int) =~= views(pieces@));
    out
}

/// Splitting `s` followed by text `b` without separators: the pieces of `s`,
/// with `b` added to the last one.
proof fn lemma_split_append(s: Seq<char>, b: Seq<char>, sep: char)
    requires
        !b.contains(sep),
    ensures
        split_chars(s + b, sep) == split_chars(s, sep).update(
            split_chars(s, sep).len() - 1,
            split_chars(s, sep).last() + b,
        ),
        split_chars(s, sep).len() >= 1,
    decreases b.len(),
{
    lemma_split_len(s, sep);
    if b.len() == 0 {
        assert(s + b =~= s);
        assert(split_chars(s, sep).last() + b =~= split_chars(s, sep).last());
        assert(split_chars(s, sep).update(split_chars(s, sep).len() - 1, split_chars(s, sep).last())
            =~= split_chars(s, sep));
    } else {
        let b0 = b.drop_last();
        assert(!b0.contains(sep)) by {
            if b0.contains(sep) {
                let i = choose|i: int| 0 <= i < b0.len() && b0[i] == sep;
                assert(b[i] == sep);
            }
        }
        lemma_split_append(s, b0, sep);
        assert((s + b).drop_last() =~= s + b0);
        assert((s + b).last() == b.last());
        assert(b.last() != sep) by {
            assert(b[b.len() - 1] == b.last());
        }
        let p = split_chars(s, sep);
        let q = split_chars(s + b0, sep);
        assert(q == p.update(p.len() - 1, p.last() + b0));
        assert(q.len() == p.len());
        assert(q.last() == p.last() + b0);
        assert(split_chars(s + b, sep) == q.update(q.len() - 1, q.last().push(b.last())));
        assert((p.last() + b0).push(b.last()) =~= p.last() + b);
        assert(split_chars(s + b, sep) =~= p.update(p.len() - 1, p.last() + b));
    }
}

proof fn lemma_split_len(s: Seq<char>, sep: char)
    ensures
        split_chars(s, sep).len() >= 1,
    decreases s.len(),
{
    if s.len() > 0 {
        lemma_split_len(s.drop_last(), sep);
    }
}

/// Joining non-empty, separator-free pieces with a separator and splitting
/// at it again gives back the pieces.
pub proof fn lemma_split_join(pieces: Seq<Seq<char>>, sep: char)
    requires
        pieces.len() >= 1,
        forall|i: int| 0 <= i < pieces.len() ==> !(#[trigger] pieces[i]).contains(sep),
    ensures
        split_chars(join_chars(pieces, seq![sep]), sep) == pieces,
    decreases pieces.len(),
{
    if pieces.len() == 1 {
        lemma_split_append(Seq::empty(), pieces[0], sep);
        assert(Seq::<char>::empty() + pieces[0] =~= pieces[0]);
        assert(Seq::<Seq<char>>::empty().push(Seq::<char>::empty()) =~= split_chars(Seq::<char>::empty(), sep));
        assert(seq![Seq::<char>::empty() + pieces[0]] =~= pieces);
    } else {
        let a = pieces.drop_last();
        assert forall|i: int| 0 <= i < a.len() implies !(#[trigger] a[i]).contains(sep) by {
            assert(a[i] == pieces[i]);
        }
        lemma_split_join(a, sep);
        let ja = join_chars(a, seq![sep]);
        let with_sep = ja + seq![sep];
        assert(with_sep.drop_last() =~= ja);
        assert(split_chars(with_sep, sep) == a.push(Seq::<char>::empty()));
        assert(!pieces.last().contains(sep)) by {
            assert(pieces[pieces.len() - 1] == pieces.last());
        }
        lemma_split_append(with_sep, pieces.last(), sep);
        assert(join_chars(pieces, seq![sep]) =~= with_sep + pieces.last());
        assert(Seq::<char>::empty() + pieces.last() =~= pieces.last());
        assert(a.push(Seq::<char>::empty()).update(a.len() as int, Seq::<char>::empty() + pieces.last()) =~= pieces);
    }
}

/// The tag has no white space at either end.
pub open spec fn is_trimmed_tag(t: Seq<char>) -> bool {
    t.len() == 0 || (!is_white_space(t[0]) && !is_white_space(t.last()))
}

/// A text with no white space at either end is its own trimmed form.
pub proof fn lemma_trimmed_tag(t: Seq<char>)
    requires
        is_trimmed_tag(t),
    ensures
        trimmed(t) == t,
{
    assert(trim_start_ws(t) == t);
    assert(trim_end_ws(t) == t);
}

/// Storing tags and reading them back gives the same tags, when no tag
/// contains `;` or has white space at either end; an empty list of tags is
/// read back as a single empty tag.
pub proof fn lemma_tags_round_trip(tags: Seq<Seq<char>>)
    requires
        forall|i: int| 0 <= i < tags.len() ==> !(#[trigger] tags[i]).contains(';'),
        forall|i: int| 0 <= i < tags.len() ==> is_trimmed_tag(#[trigger] tags[i]),
    ensures
        split_chars(join_chars(tags, seq![';']), ';').map_values(|p: Seq<char>| trimmed(p)) == (if tags.len()
            == 0 {
            seq![Seq::<char>::empty()]
        } else {
            tags
        }),
{
    if tags.len() == 0 {
        let e = Seq::<char>::empty();
        assert(trimmed(e) =~= e);
        assert(split_chars(join_chars(tags, seq![';']), ';') =~= seq![e]);
        assert(seq![e].map_values(|p: Seq<char>| trimmed(p)) =~= seq![e]);
    } else {
        lemma_split_join(tags, ';');
        assert forall|i: int| 0 <= i < tags.len() implies trimmed(#[trigger] tags[i]) == tags[i] by {
            lemma_trimmed_tag(tags[i]);
        }
        assert(tags.map_values(|p: Seq<char>| trimmed(p)) =~= tags);
    }
}

} // verus!
