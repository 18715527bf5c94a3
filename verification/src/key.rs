//! The grammar of keys.
//!
//! A plain key is a run of key characters with at most one `@`, which parts
//! the key of a class from the suffix of an article. A parenthesized key is
//! a plain key without `@` between `(` and `)`: a key local to a document.
//! A declaration may combine the two, a plain key immediately followed by a
//! parenthesized one.

use vstd::prelude::*;
use crate::text::join3;
use crate::text::text_view;
use crate::views::count;
use crate::views::lemma_count_contains;

verus! {

/// The characters a key is made of: ASCII letters and digits, and
/// `-`, `'`, `&`, `.`, `#`.
pub open spec fn is_key_char(c: char) -> bool {
    ('0' <= c && c <= '9') || ('a' <= c && c <= 'z') || ('A' <= c && c <= 'Z') || c == '-' || c
        == '\'' || c == '&' || c == '.' || c == '#'
}

/// The length of the longest prefix of `s` made of key characters only.
pub open spec fn key_run(s: Seq<char>) -> nat
    decreases s.len(),
{
    if s.len() > 0 && is_key_char(s[0]) {
        1 + key_run(s.skip(1))
    } else {
        0
    }
}

/// Whether `s` begins with a key character, so that a plain key can be read.
pub open spec fn starts_plain(s: Seq<char>) -> bool {
    s.len() > 0 && is_key_char(s[0])
}

/// Whether `s` begins with an opening parenthesis.
pub open spec fn starts_parenthesized(s: Seq<char>) -> bool {
    s.len() > 0 && s[0] == '('
}

/// The number of characters that reading a plain key from `s` consumes,
/// whether the reading succeeds or fails.
pub open spec fn plain_consumed(s: Seq<char>) -> nat {
    let n1 = key_run(s);
    if n1 < s.len() && s[n1 as int] == '@' {
        n1 + 1 + key_run(s.skip(n1 + 1 as int))
    } else {
        n1
    }
}

/// The outcome of reading a plain key from `s`: the key with the mark of an
/// article key (true where it holds `@`), or the message of the error.
///
/// A `@` must be followed by a key character, and a key holds one `@` at
/// most.
pub open spec fn plain_result(s: Seq<char>) -> Result<(Seq<char>, bool), Seq<char>> {
    let n1 = key_run(s);
    if n1 < s.len() && s[n1 as int] == '@' {
        let n2 = key_run(s.skip(n1 + 1 as int));
        let end = (n1 + 1 + n2) as int;
        if n2 == 0 {
            Err("Article key missing article after @ character."@)
        } else if end < s.len() && s[end] == '@' {
            Err("Cannot have multiple @ characters in key."@)
        } else {
            Ok((s.take(end), true))
        }
    } else {
        Ok((s.take(n1 as int), false))
    }
}

/// The number of characters that reading a parenthesized key from `s`
/// consumes, whether the reading succeeds or fails.
pub open spec fn parenthesized_consumed(s: Seq<char>) -> nat {
    let inner = s.skip(1);
    if !starts_plain(inner) {
        1
    } else {
        let n = 1 + plain_consumed(inner);
        if parenthesized_result(s) is Ok {
            n + 1
        } else {
            n
        }
    }
}

/// The outcome of reading a parenthesized key from `s`, which begins with
/// `(`: the key between the parentheses, or the message of the error.
pub open spec fn parenthesized_result(s: Seq<char>) -> Result<Seq<char>, Seq<char>> {
    let inner = s.skip(1);
    if !starts_plain(inner) {
        Err("Expected key in parentheses."@)
    } else {
        match plain_result(inner) {
            Err(e) => Err(e),
            Ok((key, article)) => {
                let after = inner.skip(plain_consumed(inner) as int);
                if article {
                    Err("Character '@' is not allowed in local key."@)
                } else if after.len() == 0 {
                    Err("Expected ')', found end of key."@)
                } else if after[0] != ')' {
                    Err("Expected ')', found '"@ + seq![after[0]] + "'"@)
                } else {
                    Ok(key)
                }
            },
        }
    }
}

/// The text up to the first space or tab of `s`, in characters.
pub open spec fn until_blank(s: Seq<char>) -> nat
    decreases s.len(),
{
    if s.len() > 0 && s[0] != ' ' && s[0] != '\t' {
        1 + until_blank(s.skip(1))
    } else {
        0
    }
}

/// What a result of reading a plain key holds.
pub open spec fn plain_view(r: Result<(String, bool), String>) -> Result<
    (Seq<char>, bool),
    Seq<char>,
> {
    match r {
        Ok((key, article)) => Ok((key@, article)),
        Err(e) => Err(e@),
    }
}

/// A prefix of `n` key characters that ends `s` or is followed by another
/// character is the key run of `s`.
pub proof fn lemma_key_run(s: Seq<char>, n: nat)
    requires
        n <= s.len(),
        forall|j: int| 0 <= j < n ==> is_key_char(#[trigger] s[j]),
        n == s.len() || !is_key_char(s[n as int]),
    ensures
        key_run(s) == n,
    decreases n,
{
    if n > 0 {
        let t = s.skip(1);
        assert forall|j: int| 0 <= j < n - 1 implies is_key_char(#[trigger] t[j]) by {
            assert(t[j] == s[j + 1]);
        }
        lemma_key_run(t, (n - 1) as nat);
    }
}

/// A prefix of `n` characters other than space and tab that ends `s` or is
/// followed by one of the two is what `until_blank` measures.
pub proof fn lemma_until_blank(s: Seq<char>, n: nat)
    requires
        n <= s.len(),
        forall|j: int| 0 <= j < n ==> #[trigger] s[j] != ' ' && s[j] != '\t',
        n == s.len() || s[n as int] == ' ' || s[n as int] == '\t',
    ensures
        until_blank(s) == n,
    decreases n,
{
    if n > 0 {
        let t = s.skip(1);
        assert forall|j: int| 0 <= j < n - 1 implies #[trigger] t[j] != ' ' && t[j] != '\t' by {
            assert(t[j] == s[j + 1]);
        }
        lemma_until_blank(t, (n - 1) as nat);
    }
}

/// The key run of a text is no longer than the text.
pub proof fn lemma_key_run_bound(s: Seq<char>)
    ensures
        key_run(s) <= s.len(),
    decreases s.len(),
{
    if s.len() > 0 && is_key_char(s[0]) {
        lemma_key_run_bound(s.skip(1));
    }
}

/// Reading a plain key consumes no more than there is.
pub proof fn lemma_plain_consumed_bound(s: Seq<char>)
    ensures
        plain_consumed(s) <= s.len(),
{
    lemma_key_run_bound(s);
    let n1 = key_run(s);
    if n1 < s.len() {
        lemma_key_run_bound(s.skip(n1 + 1 as int));
    }
}

/// Whether `c` is a character that a key is made of.
pub fn is_key_character(c: char) -> (b: bool)
    ensures
        b == is_key_char(c),
{
    ('0' <= c && c <= '9') || ('a' <= c && c <= 'z') || ('A' <= c && c <= 'Z') || c == '-' || c
        == '\'' || c == '&' || c == '.' || c == '#'
}

/// A reader that consumes a key from the front, one form at a time, and
/// never goes back.
pub struct KeyReader<'a> {
    key: &'a str,
    len: usize,
    pos: usize,
}

impl<'a> KeyReader<'a> {
    #[verifier::type_invariant]
    spec fn inv(self) -> bool {
        self.len == self.key@.len() && self.pos <= self.len
    }

    /// The characters that are still to be read.
    pub closed spec fn remaining(self) -> Seq<char> {
        self.key@.skip(self.pos as int)
    }

    /// A reader at the start of `key_str`.
    pub fn new(key_str: &'a str) -> (reader: Self)
        ensures
            reader.remaining() == key_str@,
    {
        let len = key_str.unicode_len();
        KeyReader { key: key_str, len, pos: 0 }
    }

    /// Whether a plain key can be read next.
    pub fn is_plain_key(&self) -> (b: bool)
        ensures
            b == starts_plain(self.remaining()),
    {
        proof {
            use_type_invariant(self);
        }
        self.pos < self.len && is_key_character(self.key.get_char(self.pos))
    }

    /// Whether a parenthesized key can be read next.
    pub fn is_parenthesized(&self) -> (b: bool)
        ensures
            b == starts_parenthesized(self.remaining()),
    {
        proof {
            use_type_invariant(self);
        }
        self.pos < self.len && self.key.get_char(self.pos) == '('
    }

    /// Whether everything has been read.
    pub fn is_at_end(&self) -> (b: bool)
        ensures
            b == (self.remaining().len() == 0),
    {
        proof {
            use_type_invariant(self);
        }
        self.pos >= self.len
    }

    /// Moves over the key characters at the front.
    fn skip_key_run(&mut self)
        ensures
            final(self).key == old(self).key,
            final(self).len == old(self).len,
            final(self).pos == old(self).pos + key_run(old(self).remaining()),
    {
        proof {
            use_type_invariant(&*self);
        }
        let start = self.pos;
        while self.pos < self.len && is_key_character(self.key.get_char(self.pos))
            invariant
                self.key == old(self).key,
                self.len == old(self).len,
                self.len == self.key@.len(),
                start == old(self).pos,
                start <= self.pos <= self.len,
                forall|j: int| start <= j < self.pos ==> is_key_char(#[trigger] self.key@[j]),
            decreases self.len - self.pos,
        {
            self.pos = self.pos + 1;
        }
        proof {
            let s = old(self).remaining();
            let n = (self.pos - start) as nat;
            assert forall|j: int| 0 <= j < n implies is_key_char(#[trigger] s[j]) by {
                assert(s[j] == self.key@[start + j]);
            }
            lemma_key_run(s, n);
        }
    }

    /// Reads a plain key.
    ///
    /// The flag of the result is true for the key of an article, which
    /// holds `@`, and false for the key of a class. On an error the reader
    /// stays where the error was found.
    pub fn parse_plain(&mut self) -> (r: Result<(String, bool), String>)
        requires
            starts_plain(old(self).remaining()),
        ensures
            plain_view(r) == plain_result(old(self).remaining()),
            final(self).remaining() == old(self).remaining().skip(
                plain_consumed(old(self).remaining()) as int,
            ),
    {
        proof {
            use_type_invariant(&*self);
        }
        let ghost s = self.remaining();
        let start = self.pos;
        self.skip_key_run();
        let ghost n1 = key_run(s);
        proof {
            use_type_invariant(&*self);
        }
        assert(self.key@.skip(start as int).skip(n1 as int) =~= self.key@.skip(start + n1));
        if self.pos < self.len && self.key.get_char(self.pos) == '@' {
            self.pos = self.pos + 1;
            let middle = self.pos;
            assert(self.remaining() =~= s.skip(n1 + 1 as int));
            self.skip_key_run();
            let ghost n2 = key_run(s.skip(n1 + 1 as int));
            proof {
                use_type_invariant(&*self);
            }
            assert(self.key@.skip(start as int).skip((n1 + 1 + n2) as int) =~= self.key@.skip(
                start + n1 + 1 + n2,
            ));
            if self.pos == middle {
                return Err(String::from_str("Article key missing article after @ character."));
            }
            if self.pos < self.len && self.key.get_char(self.pos) == '@' {
                return Err(String::from_str("Cannot have multiple @ characters in key."));
            }
            let key = String::from_str(self.key.substring_char(start, self.pos));
            assert(key@ =~= s.take((n1 + 1 + n2) as int));
            Ok((key, true))
        } else {
            let key = String::from_str(self.key.substring_char(start, self.pos));
            assert(key@ =~= s.take(n1 as int));
            Ok((key, false))
        }
    }

    /// Reads a parenthesized key and gives the key between the parentheses.
    ///
    /// On an error the reader stays where the error was found.
    pub fn parse_parenthesized(&mut self) -> (r: Result<String, String>)
        requires
            starts_parenthesized(old(self).remaining()),
        ensures
            text_view(r) == parenthesized_result(old(self).remaining()),
            final(self).remaining() == old(self).remaining().skip(
                parenthesized_consumed(old(self).remaining()) as int,
            ),
    {
        proof {
            use_type_invariant(&*self);
        }
        let ghost s = self.remaining();
        let ghost inner = s.skip(1);
        self.pos = self.pos + 1;
        assert(self.remaining() =~= inner);
        if !self.is_plain_key() {
            return Err(String::from_str("Expected key in parentheses."));
        }
        let parsed = self.parse_plain();
        let ghost after = inner.skip(plain_consumed(inner) as int);
        proof {
            use_type_invariant(&*self);
            lemma_plain_consumed_bound(inner);
            assert(s.skip(1).skip(plain_consumed(inner) as int) =~= s.skip(
                (1 + plain_consumed(inner)) as int,
            ));
        }
        let (key, article) = match parsed {
            Ok(pair) => pair,
            Err(e) => {
                return Err(e);
            },
        };
        if article {
            return Err(String::from_str("Character '@' is not allowed in local key."));
        }
        if self.pos >= self.len {
            return Err(String::from_str("Expected ')', found end of key."));
        }
        if self.key.get_char(self.pos) != ')' {
            let found = self.key.substring_char(self.pos, self.pos + 1);
            assert(found@ =~= seq![after[0]]);
            return Err(join3("Expected ')', found '", found, "'"));
        }
        self.pos = self.pos + 1;
        assert(self.remaining() =~= after.skip(1));
        assert(after.skip(1) =~= s.skip((1 + plain_consumed(inner) + 1) as int));
        Ok(key)
    }

    /// Moves to the next space or tab, or to the end where there is none.
    pub fn skip_whitespace(&mut self) -> (r: Result<(), String>)
        ensures
            r is Ok,
            final(self).remaining() == old(self).remaining().skip(
                until_blank(old(self).remaining()) as int,
            ),
    {
        proof {
            use_type_invariant(&*self);
        }
        let start = self.pos;
        while self.pos < self.len && self.key.get_char(self.pos) != ' ' && self.key.get_char(
            self.pos,
        ) != '\t'
            invariant
                self.key == old(self).key,
                self.len == old(self).len,
                self.len == self.key@.len(),
                start == old(self).pos,
                start <= self.pos <= self.len,
                forall|j: int|
                    start <= j < self.pos ==> #[trigger] self.key@[j] != ' ' && self.key@[j]
                        != '\t',
            decreases self.len - self.pos,
        {
            self.pos = self.pos + 1;
        }
        proof {
            let s = old(self).remaining();
            let n = (self.pos - start) as nat;
            assert forall|j: int| 0 <= j < n implies #[trigger] s[j] != ' ' && s[j] != '\t' by {
                assert(s[j] == self.key@[start + j]);
            }
            lemma_until_blank(s, n);
            assert(self.key@.skip(start as int).skip(n as int) =~= self.key@.skip(start + n));
        }
        Ok(())
    }
}

/// The key of an article declaration.
pub enum DeclarationKey {
    /// The key of a class; the article is the document's own variant of it.
    Class(String),
    /// The key of a class, with a key local to the document for the article.
    ClassAndLocal(String, String),
    /// A key local to the document, for both the class and the article.
    Local(String),
}

/// What a `DeclarationKey` holds.
pub ghost enum DeclarationKeyView {
    Class(Seq<char>),
    ClassAndLocal(Seq<char>, Seq<char>),
    Local(Seq<char>),
}

impl View for DeclarationKey {
    type V = DeclarationKeyView;

    open spec fn view(&self) -> DeclarationKeyView {
        match self {
            DeclarationKey::Class(key) => DeclarationKeyView::Class(key@),
            DeclarationKey::ClassAndLocal(key, local) => DeclarationKeyView::ClassAndLocal(
                key@,
                local@,
            ),
            DeclarationKey::Local(local) => DeclarationKeyView::Local(local@),
        }
    }
}

/// The key by which a document includes an article that is declared
/// elsewhere.
pub enum IncludeKey {
    /// The key of a class.
    Class(String),
    /// The key of an article: the key of its class, `@` and a suffix.
    Article(String),
    /// A key local to the document.
    Local(String),
}

/// What an `IncludeKey` holds.
pub ghost enum IncludeKeyView {
    Class(Seq<char>),
    Article(Seq<char>),
    Local(Seq<char>),
}

impl View for IncludeKey {
    type V = IncludeKeyView;

    open spec fn view(&self) -> IncludeKeyView {
        match self {
            IncludeKey::Class(key) => IncludeKeyView::Class(key@),
            IncludeKey::Article(key) => IncludeKeyView::Article(key@),
            IncludeKey::Local(local) => IncludeKeyView::Local(local@),
        }
    }
}

/// The outcome of reading a parenthesized key that must be followed by
/// nothing.
pub open spec fn closing_parenthesized(s: Seq<char>) -> Result<Seq<char>, Seq<char>> {
    match parenthesized_result(s) {
        Err(e) => Err(e),
        Ok(local) => if s.skip(parenthesized_consumed(s) as int).len() == 0 {
            Ok(local)
        } else {
            Err("Expected end in key."@)
        },
    }
}

/// The outcome of reading the key of a declaration from the whole of `s`.
///
/// The forms are a plain key without `@`, a parenthesized key, and the
/// first immediately followed by the second.
pub open spec fn declaration_key(s: Seq<char>) -> Result<DeclarationKeyView, Seq<char>> {
    if starts_plain(s) {
        match plain_result(s) {
            Err(e) => Err(e),
            Ok((key, article)) => {
                let rest = s.skip(plain_consumed(s) as int);
                if article {
                    Err("Declaration key cannot be an article key."@)
                } else if starts_parenthesized(rest) {
                    match closing_parenthesized(rest) {
                        Err(e) => Err(e),
                        Ok(local) => Ok(DeclarationKeyView::ClassAndLocal(key, local)),
                    }
                } else if rest.len() == 0 {
                    Ok(DeclarationKeyView::Class(key))
                } else {
                    Err("Expected end in key."@)
                }
            },
        }
    } else if starts_parenthesized(s) {
        match closing_parenthesized(s) {
            Err(e) => Err(e),
            Ok(local) => Ok(DeclarationKeyView::Local(local)),
        }
    } else {
        Err("Invalid declaration key."@)
    }
}

/// The outcome of reading the key of an inclusion from the whole of `s`.
///
/// The forms are a plain key, with or without `@`, and a parenthesized
/// key.
pub open spec fn include_key(s: Seq<char>) -> Result<IncludeKeyView, Seq<char>> {
    if starts_plain(s) {
        match plain_result(s) {
            Err(e) => Err(e),
            Ok((key, article)) => {
                if s.skip(plain_consumed(s) as int).len() != 0 {
                    Err("Expected end in key."@)
                } else if article {
                    Ok(IncludeKeyView::Article(key))
                } else {
                    Ok(IncludeKeyView::Class(key))
                }
            },
        }
    } else if starts_parenthesized(s) {
        match closing_parenthesized(s) {
            Err(e) => Err(e),
            Ok(local) => Ok(IncludeKeyView::Local(local)),
        }
    } else {
        Err("Invalid declaration key."@)
    }
}

/// What a result of reading a declaration key holds.
pub open spec fn declaration_view(r: Result<DeclarationKey, String>) -> Result<
    DeclarationKeyView,
    Seq<char>,
> {
    match r {
        Ok(key) => Ok(key@),
        Err(e) => Err(e@),
    }
}

/// What a result of reading an inclusion key holds.
pub open spec fn include_view(r: Result<IncludeKey, String>) -> Result<IncludeKeyView, Seq<char>> {
    match r {
        Ok(key) => Ok(key@),
        Err(e) => Err(e@),
    }
}

/// Reads a parenthesized key with which the key must end.
fn read_closing_parenthesized(reader: &mut KeyReader) -> (r: Result<String, String>)
    requires
        starts_parenthesized(old(reader).remaining()),
    ensures
        text_view(r) == closing_parenthesized(old(reader).remaining()),
{
    let local = match reader.parse_parenthesized() {
        Ok(local) => local,
        Err(e) => {
            return Err(e);
        },
    };
    if !reader.is_at_end() {
        return Err(String::from_str("Expected end in key."));
    }
    Ok(local)
}

/// Reads the key of an article declaration.
pub fn read_article_key_declaration(declaration: &str) -> (r: Result<DeclarationKey, String>)
    ensures
        declaration_view(r) == declaration_key(declaration@),
{
    let mut reader = KeyReader::new(declaration);
    if reader.is_plain_key() {
        let (key, article) = match reader.parse_plain() {
            Ok(pair) => pair,
            Err(e) => {
                return Err(e);
            },
        };
        if article {
            return Err(String::from_str("Declaration key cannot be an article key."));
        }
        if reader.is_parenthesized() {
            match read_closing_parenthesized(&mut reader) {
                Ok(local) => Ok(DeclarationKey::ClassAndLocal(key, local)),
                Err(e) => Err(e),
            }
        } else {
            if !reader.is_at_end() {
                return Err(String::from_str("Expected end in key."));
            }
            Ok(DeclarationKey::Class(key))
        }
    } else if reader.is_parenthesized() {
        match read_closing_parenthesized(&mut reader) {
            Ok(local) => Ok(DeclarationKey::Local(local)),
            Err(e) => Err(e),
        }
    } else {
        Err(String::from_str("Invalid declaration key."))
    }
}

/// Reads the key of an inclusion.
pub fn read_include_key(key: &str) -> (r: Result<IncludeKey, String>)
    ensures
        include_view(r) == include_key(key@),
{
    let mut reader = KeyReader::new(key);
    if reader.is_plain_key() {
        let (key, article) = match reader.parse_plain() {
            Ok(pair) => pair,
            Err(e) => {
                return Err(e);
            },
        };
        if !reader.is_at_end() {
            return Err(String::from_str("Expected end in key."));
        }
        if article {
            Ok(IncludeKey::Article(key))
        } else {
            Ok(IncludeKey::Class(key))
        }
    } else if reader.is_parenthesized() {
        match read_closing_parenthesized(&mut reader) {
            Ok(local) => Ok(IncludeKey::Local(local)),
            Err(e) => Err(e),
        }
    } else {
        Err(String::from_str("Invalid declaration key."))
    }
}

/// The key run of a text is made of key characters, and is followed by
/// another character or by nothing.
pub proof fn lemma_key_run_chars(s: Seq<char>)
    ensures
        key_run(s) <= s.len(),
        forall|j: int| 0 <= j < key_run(s) ==> is_key_char(#[trigger] s[j]),
        key_run(s) == s.len() || !is_key_char(s[key_run(s) as int]),
    decreases s.len(),
{
    if s.len() > 0 && is_key_char(s[0]) {
        let t = s.skip(1);
        lemma_key_run_chars(t);
        assert forall|j: int| 0 <= j < key_run(s) implies is_key_char(#[trigger] s[j]) by {
            if j > 0 {
                assert(s[j] == t[j - 1]);
            }
        }
        if key_run(s) < s.len() {
            assert(s[key_run(s) as int] == t[key_run(t) as int]);
        }
    }
}

/// A plain key is what was consumed: key characters with an `@` among them
/// where, and only where, it is the key of an article; and an article key
/// holds one `@`, with a key character before the end.
pub proof fn law_plain_key_shape(s: Seq<char>)
    requires
        plain_result(s) is Ok,
    ensures
        ({
            let key = plain_result(s)->Ok_0.0;
            let article = plain_result(s)->Ok_0.1;
            &&& key == s.take(plain_consumed(s) as int)
            &&& plain_consumed(s) <= s.len()
            &&& forall|i: int| 0 <= i < key.len() ==> is_key_char(#[trigger] key[i]) || key[i] == '@'
            &&& article <==> key.contains('@')
            &&& count(key, '@') == if article {
                1nat
            } else {
                0nat
            }
            &&& article ==> is_key_char(key.last())
        }),
{
    let key = plain_result(s)->Ok_0.0;
    let article = plain_result(s)->Ok_0.1;
    let n1 = key_run(s);
    lemma_key_run_chars(s);
    lemma_plain_consumed_bound(s);
    lemma_count_contains(key, '@');
    if article {
        let rest = s.skip(n1 + 1 as int);
        let n2 = key_run(rest);
        lemma_key_run_chars(rest);
        assert forall|i: int| 0 <= i < key.len() implies is_key_char(#[trigger] key[i]) || key[i]
            == '@' by {
            if i > n1 {
                assert(key[i] == rest[i - n1 - 1]);
            }
        }
        assert(key[n1 as int] == '@');
        assert(key.last() == rest[n2 - 1]);
        assert forall|i: int| 0 <= i < key.len() && i != n1 implies is_key_char(
            #[trigger] key[i],
        ) by {
            if i > n1 {
                assert(key[i] == rest[i - n1 - 1]);
            } else {
                assert(key[i] == s[i]);
            }
        }
        lemma_count_single(key, n1 as int);
    } else {
        lemma_count_none(key);
    }
}

/// A text of key characters and one `@` holds `@` once.
proof fn lemma_count_single(key: Seq<char>, at: int)
    requires
        0 <= at < key.len(),
        key[at] == '@',
        forall|i: int| 0 <= i < key.len() && i != at ==> is_key_char(#[trigger] key[i]),
    ensures
        count(key, '@') == 1,
    decreases key.len(),
{
    let front = key.drop_last();
    if at == key.len() - 1 {
        assert forall|i: int| 0 <= i < front.len() implies is_key_char(#[trigger] front[i]) by {
            assert(front[i] == key[i]);
        }
        lemma_count_none(front);
    } else {
        assert(is_key_char(key.last()));
        assert forall|i: int| 0 <= i < front.len() && i != at implies is_key_char(
            #[trigger] front[i],
        ) by {
            assert(front[i] == key[i]);
        }
        lemma_count_single(front, at);
    }
}

/// A text of key characters holds no `@`.
proof fn lemma_count_none(key: Seq<char>)
    requires
        forall|i: int| 0 <= i < key.len() ==> is_key_char(#[trigger] key[i]),
    ensures
        count(key, '@') == 0,
    decreases key.len(),
{
    if key.len() > 0 {
        let front = key.drop_last();
        assert forall|i: int| 0 <= i < front.len() implies is_key_char(#[trigger] front[i]) by {
            assert(front[i] == key[i]);
        }
        lemma_count_none(front);
        assert(is_key_char(key.last()));
    }
}

} // verus!
