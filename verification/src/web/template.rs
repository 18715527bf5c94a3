//! Templates: texts in which tokens stand for what is to be put in their
//! place.

use vstd::prelude::*;
use vstd::utf8::encode_utf8;
use crate::views::index_below;
use crate::views::index_of;
use crate::views::lemma_index_below;
use crate::views::lemma_index_of;
use crate::views::views;

verus! {

/// The bytes of the text `text` in UTF-8.
pub closed spec fn utf8(text: Seq<char>) -> Seq<u8> {
    encode_utf8(text)
}

/// The bytes of the text `text`.
pub fn bytes_of(text: &str) -> (bytes: &[u8])
    ensures
        bytes@ == utf8(text@),
{
    text.as_bytes()
}

/// Appends the bytes of the text `text` to `html`.
pub fn push_text(html: &mut Vec<u8>, text: &str)
    ensures
        final(html)@ == old(html)@ + utf8(text@),
{
    html.extend_from_slice(text.as_bytes());
    assert(html@ =~= old(html)@ + utf8(text@));
}

/// Appends the bytes `bytes` to `html`.
pub fn push_bytes(html: &mut Vec<u8>, bytes: &Vec<u8>)
    ensures
        final(html)@ == old(html)@ + bytes@,
{
    html.extend_from_slice(bytes.as_slice());
    assert(html@ =~= old(html)@ + bytes@);
}

/// A token of a template with what takes its place.
pub struct Substitution {
    pub token: Vec<u8>,
    pub replacement: Vec<u8>,
}

/// What a `Substitution` holds.
pub ghost struct SubstitutionView {
    pub token: Seq<u8>,
    pub replacement: Seq<u8>,
}

impl View for Substitution {
    type V = SubstitutionView;

    open spec fn view(&self) -> SubstitutionView {
        SubstitutionView { token: self.token@, replacement: self.replacement@ }
    }
}

/// The substitution of the bytes `replacement` for the token `token`.
pub fn substitute(token: &str, replacement: Vec<u8>) -> (substitution: Substitution)
    ensures
        substitution@ == (SubstitutionView { token: utf8(token@), replacement: replacement@ }),
{
    let mut bytes: Vec<u8> = Vec::new();
    push_text(&mut bytes, token);
    assert(bytes@ =~= utf8(token@));
    Substitution { token: bytes, replacement }
}

/// Whether the token `token`, which is not empty, stands at `at` in
/// `template`.
pub open spec fn token_at(template: Seq<u8>, at: int, token: Seq<u8>) -> bool {
    token.len() > 0 && at + token.len() <= template.len() && template.subrange(
        at,
        at + token.len(),
    ) == token
}

/// For each of `substitutions`, whether its token stands at `at` in
/// `template`.
pub open spec fn tokens_at(template: Seq<u8>, at: int, substitutions: Seq<SubstitutionView>) -> Seq<
    bool,
> {
    Seq::new(substitutions.len(), |k: int| token_at(template, at, substitutions[k].token))
}

/// The template `template` from the place `at` on, with each token
/// replaced: where a token stands, the first of `substitutions` with such
/// a token puts its replacement in the place of the token, and any other
/// byte is kept.
pub open spec fn expand_from(template: Seq<u8>, at: int, substitutions: Seq<SubstitutionView>) -> Seq<
    u8,
>
    decreases template.len() - at,
{
    if at < 0 || at >= template.len() {
        Seq::empty()
    } else {
        match index_of(tokens_at(template, at, substitutions), true) {
            Some(k) => if 0 <= k < substitutions.len() && substitutions[k].token.len() > 0 && at
                + substitutions[k].token.len() <= template.len() {
                substitutions[k].replacement + expand_from(
                    template,
                    at + substitutions[k].token.len(),
                    substitutions,
                )
            } else {
                Seq::empty()
            },
            None => seq![template[at]] + expand_from(template, at + 1, substitutions),
        }
    }
}

/// The template `template` with each token replaced.
pub open spec fn expand_template(template: Seq<u8>, substitutions: Seq<SubstitutionView>) -> Seq<u8> {
    expand_from(template, 0, substitutions)
}

/// Whether the token `token` stands at `at` in `template`.
fn is_token_at(template: &[u8], at: usize, token: &Vec<u8>) -> (b: bool)
    requires
        at <= template.len(),
    ensures
        b == token_at(template@, at as int, token@),
{
    let n = token.len();
    if n == 0 || n > template.len() - at {
        return false;
    }
    let mut i: usize = 0;
    while i < n
        invariant
            i <= n,
            n == token.len(),
            at + n <= template.len(),
            forall|k: int| 0 <= k < i ==> template[at + k] == token[k],
        decreases n - i,
    {
        if template[at + i] != token[i] {
            assert(template@.subrange(at as int, at + n)[i as int] != token@[i as int]);
            return false;
        }
        i = i + 1;
    }
    assert(template@.subrange(at as int, at + n) =~= token@);
    true
}

/// The first of `substitutions` whose token stands at `at` in `template`.
fn find_token(template: &[u8], at: usize, substitutions: &Vec<Substitution>) -> (found: Option<usize>)
    requires
        at <= template.len(),
    ensures
        match found {
            Some(k) => index_of(tokens_at(template@, at as int, views(substitutions@)), true)
                == Some(k as int) && k < substitutions.len(),
            None => index_of(tokens_at(template@, at as int, views(substitutions@)), true)
                is None,
        },
{
    let ghost all = tokens_at(template@, at as int, views(substitutions@));
    let mut k: usize = 0;
    while k < substitutions.len()
        invariant
            k <= substitutions.len(),
            at <= template.len(),
            all == tokens_at(template@, at as int, views(substitutions@)),
            index_below(all, true, k as int) is None,
        decreases substitutions.len() - k,
    {
        assert(all[k as int] == token_at(template@, at as int, substitutions[k as int].token@));
        if is_token_at(template, at, &substitutions[k].token) {
            proof {
                lemma_index_below(all, true, k as int);
                lemma_index_of(all, true);
            }
            return Some(k);
        }
        k = k + 1;
    }
    None
}

/// Appends the template `template` to `html`, with each token replaced as
/// `substitutions` say.
pub fn expand(html: &mut Vec<u8>, template: &[u8], substitutions: &Vec<Substitution>)
    ensures
        final(html)@ == old(html)@ + expand_template(template@, views(substitutions@)),
{
    let ghost all = views(substitutions@);
    let ghost whole = expand_template(template@, all);
    let mut at: usize = 0;
    assert(html@ + whole =~= old(html)@ + whole);
    while at < template.len()
        invariant
            at <= template.len(),
            all == views(substitutions@),
            whole == expand_template(template@, all),
            old(html)@ + whole == html@ + expand_from(template@, at as int, all),
        decreases template.len() - at,
    {
        let ghost before = html@;
        match find_token(template, at, substitutions) {
            Some(k) => {
                proof {
                    lemma_index_of(tokens_at(template@, at as int, all), true);
                    assert(tokens_at(template@, at as int, all)[k as int]);
                }
                push_bytes(html, &substitutions[k].replacement);
                let step = substitutions[k].token.len();
                assert(html@ + expand_from(template@, at + step, all) =~= before + expand_from(
                    template@,
                    at as int,
                    all,
                ));
                at = at + step;
            },
            None => {
                html.push(template[at]);
                assert(html@ + expand_from(template@, at + 1, all) =~= before + expand_from(
                    template@,
                    at as int,
                    all,
                ));
                at = at + 1;
            },
        }
    }
    assert(html@ + expand_from(template@, at as int, all) =~= html@);
}

/// The first `n` of the pieces `pieces`, one after the other.
pub open spec fn concat_below(pieces: Seq<Seq<u8>>, n: int) -> Seq<u8>
    decreases n,
{
    if n <= 0 {
        Seq::empty()
    } else {
        concat_below(pieces, n - 1) + pieces[n - 1]
    }
}

/// The pieces `pieces`, one after the other.
pub open spec fn concat(pieces: Seq<Seq<u8>>) -> Seq<u8> {
    concat_below(pieces, pieces.len() as int)
}

} // verus!
