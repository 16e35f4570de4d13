//! Plain text helpers: joining argument words into one task text, and
//! character-wise string comparison.

use vstd::prelude::*;

verus! {

/// Words joined with single spaces: the task text that `add` builds from
/// its argument words.
pub open spec fn join_spec(ws: Seq<Seq<char>>) -> Seq<char>
    decreases ws.len(),
{
    if ws.len() == 0 {
        Seq::empty()
    } else if ws.len() == 1 {
        ws[0]
    } else {
        ws[0] + seq![' '] + join_spec(ws.drop_first())
    }
}

/// Joining one more word appends a space and the word.
proof fn lemma_join_push(ws: Seq<Seq<char>>, w: Seq<char>)
    requires
        ws.len() >= 1,
    ensures
        join_spec(ws.push(w)) == join_spec(ws) + seq![' '] + w,
    decreases ws.len(),
{
    if ws.len() == 1 {
        assert(ws.push(w).drop_first() =~= seq![w]);
        assert(ws.push(w)[0] == ws[0]);
        assert(join_spec(seq![w]) == w);
        assert(join_spec(ws.push(w)) =~= join_spec(ws) + seq![' '] + w);
    } else {
        lemma_join_push(ws.drop_first(), w);
        assert(ws.push(w).drop_first() =~= ws.drop_first().push(w));
        assert(ws.push(w)[0] == ws[0]);
        assert(join_spec(ws.push(w)) == ws[0] + seq![' '] + join_spec(ws.drop_first().push(w)));
        assert(join_spec(ws.push(w)) == ws[0] + seq![' ']
            + (join_spec(ws.drop_first()) + seq![' '] + w));
        assert(join_spec(ws.push(w)) =~= join_spec(ws) + seq![' '] + w);
    }
}

/// Tells whether two strings hold the same characters.
pub fn str_eq(a: &str, b: &str) -> (r: bool)
    ensures
        r == (a@ == b@),
{
    let alen = a.unicode_len();
    let blen = b.unicode_len();
    if alen != blen {
        return false;
    }
    let mut i: usize = 0;
    while i < alen
        invariant
            0 <= i <= alen,
            alen == a@.len(),
            alen == b@.len(),
            forall|j: int| 0 <= j < i ==> a@[j] == b@[j],
        decreases alen - i,
    {
        if a.get_char(i) != b.get_char(i) {
            return false;
        }
        i = i + 1;
    }
    proof {
        assert(a@ =~= b@);
    }
    true
}

/// Joins the words of `words` from position `from` on with single spaces.
pub fn join_words(words: &Vec<String>, from: usize) -> (r: String)
    requires
        from <= words@.len(),
    ensures
        r@ == join_spec(words.deep_view().skip(from as int)),
{
    let ghost ws = words.deep_view().skip(from as int);
    if from >= words.len() {
        proof {
            assert(ws =~= Seq::<Seq<char>>::empty());
        }
        return String::new();
    }
    let mut r = words[from].clone();
    let mut i: usize = from + 1;
    proof {
        assert(words.deep_view().subrange(from as int, from as int + 1) =~= seq![
            words.deep_view()[from as int],
        ]);
        assert(r@ == join_spec(words.deep_view().subrange(from as int, from as int + 1)));
    }
    while i < words.len()
        invariant
            from < i <= words@.len(),
            r@ == join_spec(words.deep_view().subrange(from as int, i as int)),
        decreases words@.len() - i,
    {
        let ghost pre = words.deep_view().subrange(from as int, i as int);
        r.append(" ");
        r.append(words[i].as_str());
        proof {
            reveal_strlit(" ");
            assert(" "@ =~= seq![' ']);
            lemma_join_push(pre, words.deep_view()[i as int]);
            assert(pre.push(words.deep_view()[i as int])
                =~= words.deep_view().subrange(from as int, i as int + 1));
        }
        i = i + 1;
    }
    proof {
        assert(words.deep_view().subrange(from as int, words@.len() as int) =~= ws);
    }
    r
}

} // verus!
