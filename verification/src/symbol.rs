//! The symbol by which the exchanges name a currency pair: the pair in lower
//! case, without its slash ("ETH/BTC" is "ethbtc").
use vstd::prelude::*;

verus! {

/// The name for what `str::to_lowercase` gives for a string: its Unicode
/// lower case.
pub uninterp spec fn lowercase_of(s: Seq<char>) -> Seq<char>;

/// `s` without the character `/`.
pub open spec fn without_slashes(s: Seq<char>) -> Seq<char>
    decreases s.len(),
{
    if s.len() == 0 {
        s
    } else if s.last() == '/' {
        without_slashes(s.drop_last())
    } else {
        without_slashes(s.drop_last()).push(s.last())
    }
}

/// The symbol of a currency pair.
pub open spec fn symbol_of(currency_pair: Seq<char>) -> Seq<char> {
    without_slashes(lowercase_of(currency_pair))
}

/// Removing the slashes keeps every other character, in order: it is the
/// sequence filtered by "is not `/`", holds no `/`, and leaves a sequence
/// without `/` as it is.
pub proof fn lemma_without_slashes(s: Seq<char>)
    ensures
        without_slashes(s) == s.filter(|c: char| c != '/'),
        forall|i: int| 0 <= i < without_slashes(s).len() ==> #[trigger] without_slashes(s)[i] != '/',
        !s.contains('/') ==> without_slashes(s) == s,
    decreases s.len(),
{
    reveal(Seq::filter);
    if s.len() > 0 {
        lemma_without_slashes(s.drop_last());
        if !s.contains('/') {
            assert forall|i: int| 0 <= i < s.drop_last().len() implies s.drop_last()[i] != '/' by {
                assert(s[i] == s.drop_last()[i]);
            }
            assert(s.last() == s[s.len() - 1]);
            assert(s.drop_last().push(s.last()) =~= s);
        }
        let w = without_slashes(s);
        let v = without_slashes(s.drop_last());
        if s.last() != '/' {
            assert forall|i: int| 0 <= i < w.len() implies #[trigger] w[i] != '/' by {
                if i < v.len() {
                    assert(w[i] == v[i]);
                }
            }
        }
    } else {
        assert(s.filter(|c: char| c != '/') =~= s);
    }
}

/// The symbol of a pair is the lower-cased pair with its slashes removed and
/// every other character kept, in order: "ETH/USDT" gives "ethusdt".
pub proof fn lemma_symbol_keeps_all_but_slashes(currency_pair: Seq<char>)
    ensures
        symbol_of(currency_pair) == lowercase_of(currency_pair).filter(|c: char| c != '/'),
        symbol_of(currency_pair).len() == lowercase_of(currency_pair).filter(|c: char| c != '/').len(),
        forall|i: int|
            0 <= i < symbol_of(currency_pair).len() ==> #[trigger] symbol_of(currency_pair)[i] != '/',
        !lowercase_of(currency_pair).contains('/') ==> symbol_of(currency_pair) == lowercase_of(
            currency_pair,
        ),
{
    lemma_without_slashes(lowercase_of(currency_pair));
}

/// `str::to_lowercase`: the string in Unicode lower case, named by `lowercase_of`.
#[verifier::external_body]
fn lowercase(s: &str) -> (r: String)
    ensures
        r@ == lowercase_of(s@),
{
    s.to_lowercase()
}

/// The symbol of a currency pair: lower case, slashes removed.
pub fn pair_symbol(currency_pair: &str) -> (r: String)
    ensures
        r@ == symbol_of(currency_pair@),
{
    let lower = lowercase(currency_pair);
    let s = lower.as_str();
    let n = s.unicode_len();
    let mut r = String::new();
    let mut i: usize = 0;
    while i < n
        invariant
            n == s@.len(),
            s@ == lowercase_of(currency_pair@),
            i <= n,
            r@ == without_slashes(s@.take(i as int)),
        decreases n - i,
    {
        let c = s.get_char(i);
        proof {
            assert(s@.take(i + 1).drop_last() =~= s@.take(i as int));
            assert(s@.take(i + 1).last() == c);
        }
        if c != '/' {
            let piece = s.substring_char(i, i + 1);
            proof {
                assert(piece@ =~= seq![c]);
            }
            r.append(piece);
            proof {
                assert(r@ =~= without_slashes(s@.take(i as int)).push(c));
            }
        }
        i = i + 1;
    }
    proof {
        assert(s@.take(n as int) =~= s@);
    }
    r
}

} // verus!
