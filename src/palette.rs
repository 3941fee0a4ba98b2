//! Palettes as the command line gives them.
use vstd::prelude::*;

verus! {

broadcast use {vstd::string::axiom_spec_iter, vstd::string::next_postcondition};

/// The palette that a list of tokens spells: the first character of each
/// non-empty token, in order. Empty tokens are skipped.
pub open spec fn palette_of_tokens(tokens: Seq<Seq<char>>) -> Seq<char>
    decreases tokens.len(),
{
    if tokens.len() == 0 {
        Seq::empty()
    } else {
        let rest = palette_of_tokens(tokens.drop_last());
        let t = tokens.last();
        if t.len() > 0 {
            rest.push(t[0])
        } else {
            rest
        }
    }
}

/// The views of a list of strings.
pub open spec fn token_views(tokens: Seq<String>) -> Seq<Seq<char>> {
    tokens.map_values(|t: String| t@)
}

/// The first character of `t`, if any.
fn first_char(t: &String) -> (r: Option<char>)
    ensures
        t@.len() > 0 ==> r == Some(t@[0]),
        t@.len() == 0 ==> r is None,
{
    let mut it = t.as_str().chars();
    it.next()
}

/// Builds a palette from tokens: the first character of each non-empty token.
pub fn palette_from_tokens(tokens: &Vec<String>) -> (r: Vec<char>)
    ensures
        r@ == palette_of_tokens(token_views(tokens@)),
{
    let mut r: Vec<char> = Vec::new();
    let mut k: usize = 0;
    while k < tokens.len()
        invariant
            k <= tokens@.len(),
            r@ == palette_of_tokens(token_views(tokens@).subrange(0, k as int)),
        decreases tokens@.len() - k,
    {
        let ghost views = token_views(tokens@);
        assert(views.subrange(0, k + 1).drop_last() =~= views.subrange(0, k as int));
        match first_char(&tokens[k]) {
            Some(c) => {
                r.push(c);
            },
            None => {},
        }
        k = k + 1;
    }
    assert(token_views(tokens@).subrange(0, tokens@.len() as int) =~= token_views(tokens@));
    r
}

/// The palette used when none is given, from dense to sparse.
pub fn default_palette() -> (r: Vec<char>)
    ensures
        r@ == seq![
            '#', '@', '!', '&', '?', '=', '+', '-', '.', ' ', '*', '%', ',', '/', ':', '~',
            '0', '1', '2', '3', '4', '5', '6', '7', '8', '9', '{', '}', '|',
        ],
{
    vec![
        '#', '@', '!', '&', '?', '=', '+', '-', '.', ' ', '*', '%', ',', '/', ':', '~',
        '0', '1', '2', '3', '4', '5', '6', '7', '8', '9', '{', '}', '|',
    ]
}

} // verus!
