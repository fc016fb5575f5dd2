use vstd::prelude::*;
use vstd::string::StringExecFns;

verus! {

/// `n` copies of the character `c`.
pub open spec fn fill(c: char, n: nat) -> Seq<char> {
    Seq::new(n, |_i: int| c)
}

/// A string of `n` copies of the one-character string `glyph`.
pub fn repeat_glyph(glyph: &str, n: usize) -> (r: String)
    requires
        glyph@.len() == 1,
    ensures
        r@ == fill(glyph@[0], n as nat),
{
    let mut r = String::new();
    let mut i: usize = 0;
    while i < n
        invariant
            i <= n,
            glyph@.len() == 1,
            r@ == fill(glyph@[0], i as nat),
        decreases n - i,
    {
        r.append(glyph);
        i = i + 1;
        assert(r@ =~= fill(glyph@[0], i as nat));
    }
    assert(r@ =~= fill(glyph@[0], n as nat));
    r
}

/// `n` blanks.
pub fn spaces(n: usize) -> (r: String)
    ensures
        r@ == fill(' ', n as nat),
{
    proof {
        reveal_strlit(" ");
    }
    repeat_glyph(" ", n)
}

} // verus!
