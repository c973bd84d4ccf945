use vstd::prelude::*;

verus! {

/// What separates the pieces of a text.
#[derive(Clone, Copy, Debug, PartialEq, Eq)]
pub enum Separator {
    /// A full stop, as between the four numbers of an address.
    Dot,
    /// Any white space, as between the lanes of a value.
    Space,
}

/// Whether `c` is white space: a blank, a tab, a line feed, a form feed or a carriage return.
pub open spec fn is_space(c: char) -> bool {
    c == ' ' || c == '\t' || c == '\n' || c == '\u{c}' || c == '\r'
}

impl Separator {
    /// Whether `c` ends a piece.
    pub open spec fn spec_splits(self, c: char) -> bool {
        match self {
            Separator::Dot => c == '.',
            Separator::Space => is_space(c),
        }
    }

    /// Whether `c` ends a piece.
    pub fn splits(&self, c: char) -> (r: bool)
        ensures
            r == self.spec_splits(c),
    {
        match self {
            Separator::Dot => c == '.',
            Separator::Space => c == ' ' || c == '\t' || c == '\n' || c == '\u{c}' || c == '\r',
        }
    }
}

/// Whether no character of `s` is a separator.
pub open spec fn free_of(s: Seq<char>, sep: Separator) -> bool {
    forall|i: int| 0 <= i < s.len() ==> !sep.spec_splits(#[trigger] s[i])
}

/// The views of a sequence of texts.
pub open spec fn texts_of(v: Seq<Vec<char>>) -> Seq<Seq<char>> {
    v.map_values(|t: Vec<char>| t@)
}

/// The pieces into which the separators cut `s`.
///
/// There is always one piece more than there are separators in `s`; a piece
/// is empty where two separators meet and where `s` starts or ends with one.
pub open spec fn pieces(s: Seq<char>, sep: Separator) -> Seq<Seq<char>>
    decreases s.len(),
{
    if s.len() == 0 {
        seq![Seq::<char>::empty()]
    } else {
        let head = pieces(s.drop_last(), sep);
        if sep.spec_splits(s.last()) {
            head.push(Seq::<char>::empty())
        } else {
            head.drop_last().push(head.last().push(s.last()))
        }
    }
}

/// The texts of `p` that are not empty, in order.
pub open spec fn drop_empty(p: Seq<Seq<char>>) -> Seq<Seq<char>>
    decreases p.len(),
{
    if p.len() == 0 {
        p
    } else if p.last().len() == 0 {
        drop_empty(p.drop_last())
    } else {
        drop_empty(p.drop_last()).push(p.last())
    }
}

/// The words of `s`: its maximal runs of characters other than white space.
pub open spec fn tokens(s: Seq<char>) -> Seq<Seq<char>> {
    drop_empty(pieces(s, Separator::Space))
}

/// The texts of `texts` in order, with `between` between each two neighbours.
pub open spec fn join(texts: Seq<Seq<char>>, between: char) -> Seq<char>
    decreases texts.len(),
{
    if texts.len() == 0 {
        Seq::empty()
    } else if texts.len() == 1 {
        texts[0]
    } else {
        join(texts.drop_last(), between).push(between) + texts.last()
    }
}

/// A text always has at least one piece.
pub proof fn lemma_pieces_len(s: Seq<char>, sep: Separator)
    ensures
        pieces(s, sep).len() >= 1,
    decreases s.len(),
{
    if s.len() > 0 {
        lemma_pieces_len(s.drop_last(), sep);
    }
}

/// Characters that are no separators, added at the end, prolong the last piece.
pub proof fn lemma_pieces_append_word(a: Seq<char>, w: Seq<char>, sep: Separator)
    requires
        free_of(w, sep),
    ensures
        pieces(a + w, sep) == pieces(a, sep).drop_last().push(pieces(a, sep).last() + w),
    decreases w.len(),
{
    lemma_pieces_len(a, sep);
    if w.len() == 0 {
        assert(a + w == a);
        assert(pieces(a, sep).last() + w == pieces(a, sep).last());
        assert(pieces(a, sep).drop_last().push(pieces(a, sep).last()) == pieces(a, sep));
    } else {
        let w0 = w.drop_last();
        assert forall|i: int| 0 <= i < w0.len() implies !sep.spec_splits(#[trigger] w0[i]) by {
            assert(w0[i] == w[i]);
        }
        lemma_pieces_append_word(a, w0, sep);
        assert((a + w).drop_last() == a + w0);
        assert((a + w).last() == w.last());
        assert(!sep.spec_splits(w[w.len() - 1]));
        let p = pieces(a, sep);
        let head = pieces(a + w0, sep);
        assert(head.drop_last() == p.drop_last());
        assert(head.last().push(w.last()) == p.last() + w);
    }
}

/// Cutting a joined text at its separators gives the joined texts back,
/// when none of them holds a separator.
pub proof fn lemma_pieces_join(texts: Seq<Seq<char>>, between: char, sep: Separator)
    requires
        texts.len() >= 1,
        sep.spec_splits(between),
        forall|i: int| 0 <= i < texts.len() ==> free_of(#[trigger] texts[i], sep),
    ensures
        pieces(join(texts, between), sep) == texts,
    decreases texts.len(),
{
    if texts.len() == 1 {
        let w = texts[0];
        lemma_pieces_append_word(Seq::empty(), w, sep);
        assert(Seq::<char>::empty() + w == w);
        assert(pieces(Seq::<char>::empty(), sep) == seq![Seq::<char>::empty()]);
        assert(Seq::<char>::empty() + w == w);
        assert(pieces(w, sep) == seq![w]);
    } else {
        let head = texts.drop_last();
        assert forall|i: int| 0 <= i < head.len() implies free_of(#[trigger] head[i], sep) by {
            assert(head[i] == texts[i]);
        }
        lemma_pieces_join(head, between, sep);
        let a = join(head, between).push(between);
        assert(a.drop_last() == join(head, between));
        assert(pieces(a, sep) == head.push(Seq::<char>::empty()));
        assert(free_of(texts[texts.len() - 1], sep));
        lemma_pieces_append_word(a, texts.last(), sep);
        assert(Seq::<char>::empty() + texts.last() == texts.last());
        assert(head.push(texts.last()) == texts);
    }
}

/// Where no text is empty, dropping the empty ones changes nothing.
pub proof fn lemma_drop_empty_none(p: Seq<Seq<char>>)
    requires
        forall|i: int| 0 <= i < p.len() ==> (#[trigger] p[i]).len() > 0,
    ensures
        drop_empty(p) == p,
    decreases p.len(),
{
    if p.len() > 0 {
        assert(p[p.len() - 1].len() > 0);
        let head = p.drop_last();
        assert forall|i: int| 0 <= i < head.len() implies (#[trigger] head[i]).len() > 0 by {
            assert(head[i] == p[i]);
        }
        lemma_drop_empty_none(head);
        assert(head.push(p.last()) == p);
    }
}

/// The words of texts joined by blanks are those texts, when each is a word:
/// not empty and free of white space.
pub proof fn lemma_tokens_join(texts: Seq<Seq<char>>)
    requires
        forall|i: int| 0 <= i < texts.len() ==> (#[trigger] texts[i]).len() > 0,
        forall|i: int| 0 <= i < texts.len() ==> free_of(#[trigger] texts[i], Separator::Space),
    ensures
        tokens(join(texts, ' ')) == texts,
{
    if texts.len() == 0 {
        assert(join(texts, ' ') == Seq::<char>::empty());
        let p = pieces(Seq::<char>::empty(), Separator::Space);
        assert(p == seq![Seq::<char>::empty()]);
        assert(p.drop_last() == Seq::<Seq<char>>::empty());
        assert(drop_empty(p.drop_last()) == Seq::<Seq<char>>::empty());
        assert(drop_empty(p) == Seq::<Seq<char>>::empty());
    } else {
        lemma_pieces_join(texts, ' ', Separator::Space);
        lemma_drop_empty_none(texts);
    }
}

/// Cuts `s` at its separators.
pub fn split(s: &Vec<char>, sep: Separator) -> (r: Vec<Vec<char>>)
    ensures
        texts_of(r@) == pieces(s@, sep),
{
    let mut done: Vec<Vec<char>> = Vec::new();
    let mut cur: Vec<char> = Vec::new();
    let mut i: usize = 0;
    proof {
        assert(s@.take(0) == Seq::<char>::empty());
        assert(texts_of(done@).push(cur@) == seq![Seq::<char>::empty()]);
    }
    while i < s.len()
        invariant
            i <= s.len(),
            pieces(s@.take(i as int), sep) == texts_of(done@).push(cur@),
        decreases s.len() - i,
    {
        let c = s[i];
        let ghost before = s@.take(i as int);
        let ghost after = s@.take(i + 1);
        let ghost done0 = done@;
        let ghost cur0 = cur@;
        proof {
            assert(after.drop_last() == before);
            assert(after.last() == c);
        }
        if sep.splits(c) {
            done.push(cur);
            cur = Vec::new();
            proof {
                assert(texts_of(done@) == texts_of(done0).push(cur0));
            }
        } else {
            cur.push(c);
            proof {
                let head = texts_of(done0).push(cur0);
                assert(head.drop_last() == texts_of(done0));
                assert(head.last() == cur0);
            }
        }
        i += 1;
    }
    proof {
        assert(s@.take(s.len() as int) == s@);
    }
    let ghost done0 = done@;
    done.push(cur);
    proof {
        assert(texts_of(done@) == texts_of(done0).push(cur@));
    }
    done
}

/// The words of `s`.
pub fn words(s: &Vec<char>) -> (r: Vec<Vec<char>>)
    ensures
        texts_of(r@) == tokens(s@),
{
    let parts = split(s, Separator::Space);
    let mut r: Vec<Vec<char>> = Vec::new();
    let mut i: usize = 0;
    proof {
        assert(texts_of(parts@).take(0) == Seq::<Seq<char>>::empty());
        assert(texts_of(r@) == Seq::<Seq<char>>::empty());
    }
    while i < parts.len()
        invariant
            i <= parts.len(),
            texts_of(r@) == drop_empty(texts_of(parts@).take(i as int)),
        decreases parts.len() - i,
    {
        let ghost before = texts_of(parts@).take(i as int);
        let ghost after = texts_of(parts@).take(i + 1);
        let ghost r0 = r@;
        proof {
            assert(after.drop_last() == before);
            assert(after.last() == parts@[i as int]@);
        }
        if parts[i].len() > 0 {
            let part = parts[i].clone();
            proof {
                assert(part@ == parts@[i as int]@);
            }
            r.push(part);
            proof {
                assert(texts_of(r@) == texts_of(r0).push(part@));
            }
        }
        i += 1;
    }
    proof {
        assert(texts_of(parts@).take(parts.len() as int) == texts_of(parts@));
    }
    r
}

/// Appends the texts of `texts` to `out`, with `between` between each two neighbours.
pub fn push_joined(out: &mut Vec<char>, texts: &Vec<Vec<char>>, between: char)
    ensures
        final(out)@ == old(out)@ + join(texts_of(texts@), between),
{
    let mut i: usize = 0;
    proof {
        assert(texts_of(texts@).take(0) == Seq::<Seq<char>>::empty());
        assert(out@ == old(out)@ + Seq::<char>::empty());
    }
    while i < texts.len()
        invariant
            i <= texts.len(),
            out@ == old(out)@ + join(texts_of(texts@).take(i as int), between),
        decreases texts.len() - i,
    {
        let ghost before = texts_of(texts@).take(i as int);
        let ghost after = texts_of(texts@).take(i + 1);
        let ghost out0 = out@;
        proof {
            assert(after.drop_last() == before);
            assert(after.last() == texts@[i as int]@);
        }
        if i > 0 {
            out.push(between);
        }
        crate::strings::append_chars(out, &texts[i]);
        proof {
            if i == 0 {
                assert(join(before, between) == Seq::<char>::empty());
                assert(join(after, between) == after[0]);
                assert(out@ == old(out)@ + join(after, between));
            } else {
                assert(out@ == old(out)@ + (join(before, between).push(between) + after.last()));
            }
        }
        i += 1;
    }
    proof {
        assert(texts_of(texts@).take(texts.len() as int) == texts_of(texts@));
    }
}

} // verus!
