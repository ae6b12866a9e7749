use vstd::prelude::*;

verus! {

/// ASCII whitespace: the token separators of the statement grammar.
pub open spec fn is_space(b: u8) -> bool {
    b == 32 || b == 9 || b == 10 || b == 13
}

/// The whitespace-separated tokens of a line, in order. A leading space is
/// skipped; a leading token byte either extends the token that starts right
/// after it or opens a token of its own.
pub open spec fn tokens(s: Seq<u8>) -> Seq<Seq<u8>>
    decreases s.len(),
{
    if s.len() == 0 {
        Seq::empty()
    } else if is_space(s[0]) {
        tokens(s.drop_first())
    } else {
        let rest = tokens(s.drop_first());
        if s.len() >= 2 && !is_space(s[1]) {
            seq![seq![s[0]] + rest[0]] + rest.drop_first()
        } else {
            seq![seq![s[0]]] + rest
        }
    }
}

/// A line that starts with a token byte has at least one token.
pub proof fn lemma_tokens_nonempty(s: Seq<u8>)
    requires
        s.len() > 0,
        !is_space(s[0]),
    ensures
        tokens(s).len() > 0,
{
}

/// Whether `b` separates tokens.
pub fn is_space_byte(b: u8) -> (r: bool)
    ensures
        r == is_space(b),
{
    b == 32 || b == 9 || b == 10 || b == 13
}

/// Splits the tail of `line` starting at `i` into its tokens.
fn tokenize_from(line: &[u8], i: usize) -> (toks: Vec<Vec<u8>>)
    requires
        i <= line@.len(),
    ensures
        toks@.len() == tokens(line@.skip(i as int)).len(),
        forall|k: int|
            0 <= k < toks@.len() ==> (#[trigger] toks@[k])@ == tokens(line@.skip(i as int))[k],
    decreases line@.len() - i,
{
    let ghost s = line@.skip(i as int);
    if i == line.len() {
        let toks: Vec<Vec<u8>> = Vec::new();
        toks
    } else if is_space_byte(line[i]) {
        let toks = tokenize_from(line, i + 1);
        proof {
            assert(s.drop_first() =~= line@.skip(i as int + 1));
        }
        toks
    } else {
        let mut toks = tokenize_from(line, i + 1);
        proof {
            assert(s.drop_first() =~= line@.skip(i as int + 1));
        }
        let ghost rest = tokens(line@.skip(i as int + 1));
        if i + 1 < line.len() && !is_space_byte(line[i + 1]) {
            proof {
                lemma_tokens_nonempty(line@.skip(i as int + 1));
            }
            let mut first = toks.remove(0);
            first.insert(0, line[i]);
            toks.insert(0, first);
            proof {
                assert(first@ =~= seq![s[0]] + rest[0]);
                assert(tokens(s) =~= seq![seq![s[0]] + rest[0]] + rest.drop_first());
            }
        } else {
            let mut first: Vec<u8> = Vec::new();
            first.push(line[i]);
            toks.insert(0, first);
            proof {
                assert(first@ =~= seq![s[0]]);
            }
        }
        toks
    }
}

/// Splits `line` into its whitespace-separated tokens, in order.
pub fn tokenize(line: &[u8]) -> (toks: Vec<Vec<u8>>)
    ensures
        toks@.len() == tokens(line@).len(),
        forall|k: int| 0 <= k < toks@.len() ==> (#[trigger] toks@[k])@ == tokens(line@)[k],
{
    proof {
        assert(line@.skip(0) =~= line@);
    }
    tokenize_from(line, 0)
}

} // verus!
