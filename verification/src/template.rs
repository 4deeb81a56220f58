//! The page a browser listener is served, as a template: text with `{{ key }}` places, each
//! filled with the protocol version or a translated text. A `{{` that no `}}` closes is kept
//! as it is.

use vstd::prelude::*;

use crate::text::{chars_of, string_of, trim, trimmed};

verus! {

/// A piece of a template: text kept as it is, or the key of a place to fill.
#[derive(Clone, Debug, PartialEq, Eq)]
pub enum Piece {
    Text(String),
    Key(String),
}

/// A piece as a plain value.
pub enum PieceView {
    Text(Seq<char>),
    Key(Seq<char>),
}

impl View for Piece {
    type V = PieceView;

    open spec fn view(&self) -> PieceView {
        match self {
            Piece::Text(text) => PieceView::Text(text@),
            Piece::Key(key) => PieceView::Key(key@),
        }
    }
}

/// Where the pair `a`, `b` first stands in `s`.
pub open spec fn find_pair(s: Seq<char>, a: char, b: char) -> Option<int>
    decreases s.len(),
{
    if s.len() < 2 {
        None
    } else if s[0] == a && s[1] == b {
        Some(0)
    } else {
        match find_pair(s.drop_first(), a, b) {
            Some(i) => Some(i + 1),
            None => None,
        }
    }
}

/// The pieces of a template: the text up to the first `{{`; then, when a `}}` closes it, the
/// key between them without white space at either end, and the pieces of what follows the
/// `}}`; when none does, the `{{` as text, and the pieces of what follows it.
pub open spec fn pieces_spec(t: Seq<char>) -> Seq<PieceView>
    decreases t.len(),
{
    match find_pair(t, '{', '{') {
        None => seq![PieceView::Text(t)],
        Some(start) => {
            let after = t.subrange(start + 2, t.len() as int);
            if start < 0 || start + 2 > t.len() {
                seq![PieceView::Text(t)]
            } else {
                match find_pair(after, '}', '}') {
                    None => seq![
                        PieceView::Text(t.subrange(0, start)),
                        PieceView::Text(seq!['{', '{']),
                    ] + pieces_spec(after),
                    Some(end) => if end < 0 || end + 2 > after.len() {
                        seq![PieceView::Text(t)]
                    } else {
                        seq![
                            PieceView::Text(t.subrange(0, start)),
                            PieceView::Key(trimmed(after.subrange(0, end))),
                        ] + pieces_spec(after.subrange(end + 2, after.len() as int))
                    },
                }
            }
        },
    }
}

/// Where a found pair stands: inside the text, with nothing like it before.
pub proof fn lemma_find_pair(s: Seq<char>, a: char, b: char)
    ensures
        match find_pair(s, a, b) {
            Some(i) => {
                &&& 0 <= i && i + 2 <= s.len()
                &&& s[i] == a && s[i + 1] == b
                &&& forall|j: int| 0 <= j < i ==> !(#[trigger] s[j] == a && s[j + 1] == b)
            },
            None => forall|j: int| 0 <= j && j + 1 < s.len() ==> !(#[trigger] s[j] == a && s[j + 1] == b),
        },
    decreases s.len(),
{
    if s.len() >= 2 && !(s[0] == a && s[1] == b) {
        lemma_find_pair(s.drop_first(), a, b);
        let rest = s.drop_first();
        assert forall|j: int| 0 < j && j + 1 < s.len() implies #[trigger] s[j] == rest[j - 1] by {}
        if find_pair(rest, a, b) is None {
            assert forall|j: int| 0 <= j && j + 1 < s.len() implies !(#[trigger] s[j] == a && s[j + 1] == b) by {
                if j > 0 {
                    assert(s[j] == rest[j - 1] && s[j + 1] == rest[j]);
                }
            }
        } else {
            let i = find_pair(rest, a, b)->0;
            assert forall|j: int| 0 <= j < i + 1 implies !(#[trigger] s[j] == a && s[j + 1] == b) by {
                if j > 0 {
                    assert(s[j] == rest[j - 1] && s[j + 1] == rest[j]);
                }
            }
        }
    }
}

/// Where the pair `a`, `b` first stands in `chars[from..]`, counted from `from`.
fn find_from(chars: &Vec<char>, from: usize, a: char, b: char) -> (r: Option<usize>)
    requires
        from <= chars@.len(),
    ensures
        match find_pair(chars@.subrange(from as int, chars@.len() as int), a, b) {
            Some(i) => r == Some((from + i) as usize),
            None => r is None,
        },
{
    let ghost s = chars@.subrange(from as int, chars@.len() as int);
    proof {
        lemma_find_pair(s, a, b);
    }
    let mut i = from;
    while i < chars.len() && i + 1 < chars.len()
        invariant
            from <= i <= chars@.len(),
            s == chars@.subrange(from as int, chars@.len() as int),
            forall|j: int| from <= j < i ==> !(#[trigger] chars@[j] == a && chars@[j + 1] == b),
        decreases chars@.len() - i,
    {
        if chars[i] == a && chars[i + 1] == b {
            proof {
                lemma_find_pair(s, a, b);
                let at = i - from;
                assert(s[at] == chars@[i as int] && s[at + 1] == chars@[i + 1]);
                if let Some(k) = find_pair(s, a, b) {
                    if k < at {
                        assert(s[k] == chars@[from + k] && s[k + 1] == chars@[from + k + 1]);
                    }
                    if k > at {
                        assert(!(s[at] == a && s[at + 1] == b));
                    }
                }
            }
            return Some(i);
        }
        i = i + 1;
    }
    proof {
        lemma_find_pair(s, a, b);
        if let Some(k) = find_pair(s, a, b) {
            assert(s[k] == chars@[from + k] && s[k + 1] == chars@[from + k + 1]);
        }
    }
    None
}

/// The text of `chars[from..to]`.
fn text_of_range(chars: &Vec<char>, from: usize, to: usize) -> (r: String)
    requires
        from <= to <= chars@.len(),
    ensures
        r@ == chars@.subrange(from as int, to as int),
{
    let mut part: Vec<char> = Vec::new();
    let mut i = from;
    while i < to
        invariant
            from <= i <= to,
            to <= chars@.len(),
            part@ == chars@.subrange(from as int, i as int),
        decreases to - i,
    {
        part.push(chars[i]);
        assert(part@ =~= chars@.subrange(from as int, i + 1));
        i = i + 1;
    }
    string_of(&part)
}

/// Pieces as plain values.
pub open spec fn pieces_view(pieces: Seq<Piece>) -> Seq<PieceView> {
    pieces.map_values(|piece: Piece| piece@)
}

/// The pieces of a template: text kept as it is, and the keys of the places to fill.
#[verifier::spinoff_prover]
pub fn pieces(template: &str) -> (r: Vec<Piece>)
    ensures
        pieces_view(r@) == pieces_spec(template@),
{
    let chars = chars_of(template);
    let mut out: Vec<Piece> = Vec::new();
    let mut pos: usize = 0;
    assert(chars@.subrange(0, chars@.len() as int) =~= chars@);
    assert(pieces_view(out@) + pieces_spec(chars@.subrange(0, chars@.len() as int)) =~= pieces_spec(
        template@,
    ));
    loop
        invariant
            pos <= chars@.len(),
            chars@ == template@,
            pieces_view(out@) + pieces_spec(chars@.subrange(pos as int, chars@.len() as int))
                == pieces_spec(template@),
        decreases chars@.len() - pos,
    {
        let ghost t = chars@.subrange(pos as int, chars@.len() as int);
        let ghost was = pieces_view(out@);
        proof {
            lemma_find_pair(t, '{', '{');
        }
        match find_from(&chars, pos, '{', '{') {
            None => {
                out.push(Piece::Text(text_of_range(&chars, pos, chars.len())));
                assert(pieces_view(out@) =~= was.push(PieceView::Text(t)));
                assert(pieces_view(out@) =~= pieces_spec(template@));
                return out;
            },
            Some(start) => {
                let ghost s = start - pos;
                let ghost after = t.subrange(s + 2, t.len() as int);
                assert(after =~= chars@.subrange(start + 2, chars@.len() as int));
                proof {
                    lemma_find_pair(after, '}', '}');
                }
                out.push(Piece::Text(text_of_range(&chars, pos, start)));
                assert(t.subrange(0, s) =~= chars@.subrange(pos as int, start as int));
                match find_from(&chars, start + 2, '}', '}') {
                    None => {
                        let open = string_of(&vec!['{', '{']);
                        out.push(Piece::Text(open));
                        assert(pieces_view(out@) =~= was + seq![
                            PieceView::Text(t.subrange(0, s)),
                            PieceView::Text(seq!['{', '{']),
                        ]);
                        pos = start + 2;
                    },
                    Some(end) => {
                        proof {
                            assert(after == chars@.subrange(start + 2, chars@.len() as int));
                            assert(find_pair(after, '}', '}') is Some);
                            let found = find_pair(after, '}', '}')->0;
                            assert(found + 2 <= after.len());
                            assert(end == start + 2 + found);
                            assert(after.len() == chars@.len() - start - 2);
                            assert(end + 2 <= chars@.len());
                        }
                        let ghost e = end - (start + 2);
                        let raw = text_of_range(&chars, start + 2, end);
                        assert(after.subrange(0, e) =~= chars@.subrange(start + 2, end as int));
                        out.push(Piece::Key(trim(raw.as_str())));
                        assert(pieces_view(out@) =~= was + seq![
                            PieceView::Text(t.subrange(0, s)),
                            PieceView::Key(trimmed(after.subrange(0, e))),
                        ]);
                        assert(after.subrange(e + 2, after.len() as int) =~= chars@.subrange(
                            end + 2,
                            chars@.len() as int,
                        ));
                        let total = chars.len();
                        assert(end + 2 <= total);
                        pos = end + 2;
                    },
                }
            },
        }
    }
}

/// The keys of the places, in order.
pub open spec fn keys_spec(pieces: Seq<PieceView>) -> Seq<Seq<char>>
    decreases pieces.len(),
{
    if pieces.len() == 0 {
        Seq::empty()
    } else {
        let rest = keys_spec(pieces.drop_first());
        match pieces[0] {
            PieceView::Key(key) => seq![key] + rest,
            PieceView::Text(_) => rest,
        }
    }
}

/// The text a template reads with its places filled by `values`, one per place, in order.
pub open spec fn filled(pieces: Seq<PieceView>, values: Seq<Seq<char>>) -> Seq<char>
    decreases pieces.len(),
{
    if pieces.len() == 0 {
        Seq::empty()
    } else {
        match pieces[0] {
            PieceView::Text(text) => text + filled(pieces.drop_first(), values),
            PieceView::Key(_) => values[0] + filled(pieces.drop_first(), values.drop_first()),
        }
    }
}

/// The keys of the places, in order: what the values to fill them with are looked up by.
pub fn keys(pieces: &Vec<Piece>) -> (r: Vec<String>)
    ensures
        crate::feed::texts_view(r@) == keys_spec(pieces_view(pieces@)),
{
    let ghost all = pieces_view(pieces@);
    let mut out: Vec<String> = Vec::new();
    let mut i: usize = 0;
    assert(all.skip(0) =~= all);
    assert(crate::feed::texts_view(out@) + keys_spec(all.skip(0)) =~= keys_spec(all));
    while i < pieces.len()
        invariant
            i <= pieces@.len(),
            all == pieces_view(pieces@),
            crate::feed::texts_view(out@) + keys_spec(all.skip(i as int)) == keys_spec(all),
        decreases pieces@.len() - i,
    {
        assert(all.skip(i as int).drop_first() =~= all.skip(i + 1));
        assert(all.skip(i as int)[0] == pieces@[i as int]@);
        let ghost was = out@;
        match &pieces[i] {
            Piece::Key(key) => {
                out.push(key.clone());
                assert(crate::feed::texts_view(out@) =~= crate::feed::texts_view(was).push(key@));
                assert(crate::feed::texts_view(out@) + keys_spec(all.skip(i + 1)) =~= crate::feed::texts_view(
                    was,
                ) + keys_spec(all.skip(i as int)));
            },
            Piece::Text(_) => {},
        }
        i = i + 1;
    }
    assert(all.skip(i as int) =~= Seq::<PieceView>::empty());
    assert(crate::feed::texts_view(out@) =~= keys_spec(all));
    out
}

/// How many places the pieces have.
pub proof fn lemma_keys_len(pieces: Seq<PieceView>)
    ensures
        keys_spec(pieces).len() <= pieces.len(),
    decreases pieces.len(),
{
    if pieces.len() > 0 {
        lemma_keys_len(pieces.drop_first());
    }
}

/// The template's text with its places filled by `values`, one per place, in order.
pub fn fill(pieces: &Vec<Piece>, values: &Vec<String>) -> (r: String)
    requires
        values@.len() == keys_spec(pieces_view(pieces@)).len(),
    ensures
        r@ == filled(pieces_view(pieces@), crate::feed::texts_view(values@)),
{
    let ghost all = pieces_view(pieces@);
    let ghost vals = crate::feed::texts_view(values@);
    let mut out = String::new();
    let mut i: usize = 0;
    let mut k: usize = 0;
    assert(all.skip(0) =~= all);
    assert(vals.skip(0) =~= vals);
    assert(out@ =~= Seq::<char>::empty());
    while i < pieces.len()
        invariant
            i <= pieces@.len(),
            all == pieces_view(pieces@),
            vals == crate::feed::texts_view(values@),
            values@.len() == keys_spec(all).len(),
            k <= values@.len(),
            keys_spec(all.skip(i as int)).len() == values@.len() - k,
            out@ + filled(all.skip(i as int), vals.skip(k as int)) == filled(all, vals),
        decreases pieces@.len() - i,
    {
        let ghost rest = all.skip(i as int);
        assert(rest.drop_first() =~= all.skip(i + 1));
        assert(rest[0] == pieces@[i as int]@);
        let ghost was = out@;
        match &pieces[i] {
            Piece::Text(text) => {
                assert(keys_spec(rest) == keys_spec(rest.drop_first()));
                out.append(text.as_str());
                assert(out@ + filled(all.skip(i + 1), vals.skip(k as int)) =~= was + filled(
                    rest,
                    vals.skip(k as int),
                ));
            },
            Piece::Key(_) => {
                assert(rest.len() > 0);
                assert(rest[0] is Key);
                assert(keys_spec(rest) == seq![rest[0]->Key_0] + keys_spec(rest.drop_first()));
                assert(keys_spec(rest).len() >= 1);
                assert(k < values.len());
                assert(vals.skip(k as int).drop_first() =~= vals.skip(k + 1));
                assert(vals.skip(k as int)[0] == values@[k as int]@);
                out.append(values[k].as_str());
                assert(out@ + filled(all.skip(i + 1), vals.skip(k + 1)) =~= was + filled(
                    rest,
                    vals.skip(k as int),
                ));
                k = k + 1;
            },
        }
        i = i + 1;
    }
    assert(all.skip(i as int) =~= Seq::<PieceView>::empty());
    assert(out@ =~= filled(all, vals));
    out
}


/// A template without places reads as it is: it is one text, and filling it changes nothing.
pub proof fn lemma_plain_template(t: Seq<char>)
    requires
        find_pair(t, '{', '{') is None,
    ensures
        pieces_spec(t) == seq![PieceView::Text(t)],
        keys_spec(pieces_spec(t)).len() == 0,
        filled(pieces_spec(t), Seq::empty()) == t,
{
    let one = seq![PieceView::Text(t)];
    assert(one.drop_first() =~= Seq::<PieceView>::empty());
    assert(filled(one.drop_first(), Seq::<Seq<char>>::empty()) == Seq::<char>::empty());
    assert(keys_spec(one.drop_first()) == Seq::<Seq<char>>::empty());
    assert(keys_spec(one) == keys_spec(one.drop_first()));
    assert(t + Seq::<char>::empty() =~= t);
}

} // verus!
