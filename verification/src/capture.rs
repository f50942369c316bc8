//! The arguments of the `ffmpeg` process that captures the screen.
//!
//! The configuration file holds them on one line, separated by single
//! spaces; each space separates two arguments, so two spaces in a row give
//! an empty argument, and nothing else (a line break included) separates.

use vstd::prelude::*;

verus! {

/// The pieces joined with a space between each two.
pub open spec fn join_with_spaces(pieces: Seq<Seq<char>>) -> Seq<char>
    decreases pieces.len(),
{
    if pieces.len() == 0 {
        Seq::empty()
    } else if pieces.len() == 1 {
        pieces[0]
    } else {
        join_with_spaces(pieces.drop_last()) + seq![' '] + pieces.last()
    }
}

/// The texts of `args`.
pub open spec fn texts(args: Seq<String>) -> Seq<Seq<char>> {
    args.map_values(|a: String| a@)
}

proof fn lemma_join_extend_last(pieces: Seq<Seq<char>>, last: Seq<char>, c: char)
    ensures
        join_with_spaces(pieces.push(last.push(c))) == join_with_spaces(pieces.push(last)).push(c),
{
    let a = pieces.push(last.push(c));
    let b = pieces.push(last);
    assert(a.drop_last() =~= pieces);
    assert(b.drop_last() =~= pieces);
    if pieces.len() == 0 {
        assert(a[0] == last.push(c));
        assert(b[0] == last);
    } else {
        assert(join_with_spaces(a) == join_with_spaces(pieces) + seq![' '] + last.push(c));
        assert(join_with_spaces(b) == join_with_spaces(pieces) + seq![' '] + last);
        assert(join_with_spaces(pieces) + seq![' '] + last.push(c) =~= (join_with_spaces(pieces)
            + seq![' '] + last).push(c));
    }
}

proof fn lemma_join_new_piece(pieces: Seq<Seq<char>>, last: Seq<char>)
    ensures
        join_with_spaces(pieces.push(last).push(Seq::empty())) == join_with_spaces(
            pieces.push(last),
        ).push(' '),
{
    let a = pieces.push(last).push(Seq::<char>::empty());
    assert(a.drop_last() =~= pieces.push(last));
    assert(join_with_spaces(pieces.push(last)) + seq![' '] + Seq::<char>::empty() =~= join_with_spaces(
        pieces.push(last),
    ).push(' '));
}

/// Splits the configuration text into the arguments of the capture
/// process, at every space, as `str::split(' ')` does.
pub fn ffmpeg_args(cfg: &str) -> (args: Vec<String>)
    ensures
        args@.len() >= 1,
        join_with_spaces(texts(args@)) == cfg@,
        forall|k: int| 0 <= k < args@.len() ==> !(#[trigger] args@[k])@.contains(' '),
{
    let n = cfg.unicode_len();
    let mut args: Vec<String> = Vec::new();
    let mut start: usize = 0;
    let mut i: usize = 0;
    assert(texts(args@) =~= Seq::<Seq<char>>::empty());
    assert(cfg@.subrange(0, 0) =~= Seq::<char>::empty());
    assert(texts(args@).push(cfg@.subrange(0, 0)) =~= seq![Seq::<char>::empty()]);
    assert(cfg@.take(0) =~= Seq::<char>::empty());
    while i < n
        invariant
            n == cfg@.len(),
            start <= i <= n,
            join_with_spaces(texts(args@).push(cfg@.subrange(start as int, i as int))) == cfg@.take(
                i as int,
            ),
            !cfg@.subrange(start as int, i as int).contains(' '),
            forall|k: int| 0 <= k < args@.len() ==> !(#[trigger] args@[k])@.contains(' '),
        decreases n - i,
    {
        let c = cfg.get_char(i);
        let ghost piece = cfg@.subrange(start as int, i as int);
        if c == ' ' {
            let text = cfg.substring_char(start, i);
            let arg = String::from_str(text);
            let ghost before = texts(args@);
            args.push(arg);
            start = i + 1;
            i = i + 1;
            proof {
                assert(texts(args@) =~= before.push(piece));
                lemma_join_new_piece(before, piece);
                assert(cfg@.subrange(start as int, i as int) =~= Seq::<char>::empty());
                assert(cfg@.take(i as int) =~= cfg@.take(i - 1).push(' '));
                assert forall|k: int| 0 <= k < args@.len() implies !(#[trigger] args@[k])@.contains(
                    ' ',
                ) by {
                    if k == args@.len() - 1 {
                        assert(args@[k]@ == piece);
                    }
                }
            }
        } else {
            i = i + 1;
            proof {
                lemma_join_extend_last(texts(args@), piece, c);
                assert(cfg@.subrange(start as int, i as int) =~= piece.push(c));
                assert(cfg@.take(i as int) =~= cfg@.take(i - 1).push(c));
                assert forall|j: int| 0 <= j < piece.len() + 1 implies cfg@.subrange(
                    start as int,
                    i as int,
                )[j] != ' ' by {
                    if j < piece.len() {
                        assert(cfg@.subrange(start as int, i as int)[j] == piece[j]);
                    }
                }
            }
        }
    }
    let text = cfg.substring_char(start, n);
    let ghost piece = cfg@.subrange(start as int, n as int);
    let ghost before = texts(args@);
    args.push(String::from_str(text));
    proof {
        assert(texts(args@) =~= before.push(piece));
        assert(cfg@.take(n as int) =~= cfg@);
        assert forall|k: int| 0 <= k < args@.len() implies !(#[trigger] args@[k])@.contains(' ') by {
            if k == args@.len() - 1 {
                assert(args@[k]@ == piece);
            }
        }
    }
    args
}

} // verus!
