//! The shape of a proxy link after its scheme: `password@address:port`,
//! then `?params` if there are any, then `#remark`.
//!
//! The password is as long as it can be: it ends at the last `@` that a
//! well-formed address, port and endings follow.

use vstd::prelude::*;

use crate::text::{
    all_digits, find, is_ascii_digit, is_digit, lemma_occurrence_has_first,
    lemma_split_once_at_char, lemma_split_once_sound, lemma_split_once_without_char, number_of,
    occurs_at, parse_u32, slice_of, split_at_first, split_once, string_of,
};

verus! {

/// The parts of a proxy link.
#[derive(Debug)]
pub struct LinkParts {
    /// The user part: everything before the separating `@`.
    pub password: String,
    /// The server's address; it holds no `:`.
    pub address: String,
    /// The server's port.
    pub port: u32,
    /// The query after `?`, if there is one; it holds no `#`.
    pub params: Option<String>,
    /// The text after `#`.
    pub remark: String,
}

/// The parts of a proxy link as mathematical values.
pub struct LinkShape {
    pub password: Seq<char>,
    pub address: Seq<char>,
    pub port: u32,
    pub params: Option<Seq<char>>,
    pub remark: Seq<char>,
}

impl DeepView for LinkParts {
    type V = LinkShape;

    open spec fn deep_view(&self) -> LinkShape {
        LinkShape {
            password: self.password@,
            address: self.address@,
            port: self.port,
            params: match self.params {
                Some(q) => Some(q@),
                None => None,
            },
            remark: self.remark@,
        }
    }
}

/// What follows the `@` of a link, split into its parts. The port is still
/// text here, and the remark may be missing.
pub struct Tail {
    pub address: Seq<char>,
    pub port: Seq<char>,
    pub params: Option<Seq<char>>,
    pub remark: Option<Seq<char>>,
}

/// The number of decimal digits that `s` begins with.
pub open spec fn digit_run(s: Seq<char>) -> nat
    decreases s.len(),
{
    if s.len() > 0 && is_digit(s.first()) {
        1 + digit_run(s.drop_first())
    } else {
        0
    }
}

/// A remark is not empty and stays on one line.
pub open spec fn is_remark(r: Seq<char>) -> bool {
    r.len() > 0 && !r.contains('\n')
}

/// The endings of a link, read from what follows the port: nothing, a
/// remark, a query, or a query and a remark. A query is not empty and ends at
/// the first `#`. The result is the query and the remark, each if present.
pub open spec fn endings_of(u: Seq<char>) -> Option<(Option<Seq<char>>, Option<Seq<char>>)> {
    if u.len() == 0 {
        Some((None, None))
    } else if u[0] == '#' {
        if is_remark(u.skip(1)) {
            Some((None, Some(u.skip(1))))
        } else {
            None
        }
    } else if u[0] == '?' {
        match split_once(u.skip(1), seq!['#']) {
            None => if u.len() > 1 {
                Some((Some(u.skip(1)), None))
            } else {
                None
            },
            Some((query, remark)) => if query.len() > 0 && is_remark(remark) {
                Some((Some(query), Some(remark)))
            } else {
                None
            },
        }
    } else {
        None
    }
}

/// What follows the `@`, read as address, port and endings: the address is
/// the text before the first `:` and is not empty, the port is the run of
/// digits after that `:` and is not empty, and the endings take all the rest.
pub open spec fn tail_of(t: Seq<char>) -> Option<Tail> {
    match split_once(t, seq![':']) {
        None => None,
        Some((address, rest)) => {
            let n = digit_run(rest) as int;
            match endings_of(rest.skip(n)) {
                Some((params, remark)) => if address.len() > 0 && n > 0 {
                    Some(Tail { address, port: rest.take(n), params, remark })
                } else {
                    None
                },
                None => None,
            }
        },
    }
}

/// The `@` at index `k` can separate the password from the rest: the
/// password before it is not empty and stays on one line, and a well-formed
/// tail follows it.
pub open spec fn splits_at(s: Seq<char>, k: int) -> bool {
    0 < k < s.len() && s[k] == '@' && !s.take(k).contains('\n') && tail_of(s.skip(k + 1)) is Some
}

/// The `@` at index `k` is the last one that can separate the password from
/// the rest.
pub open spec fn is_last_split(s: Seq<char>, k: int) -> bool {
    splits_at(s, k) && forall|j: int| k < j ==> !splits_at(s, j)
}

/// The parts of the link `s`, if it has the shape of a link, with a remark
/// and a port that is a number of 32 bits.
pub open spec fn link_shape(s: Seq<char>) -> Option<LinkShape> {
    if exists|k: int| is_last_split(s, k) {
        let k = choose|k: int| is_last_split(s, k);
        let tail = tail_of(s.skip(k + 1))->Some_0;
        match (tail.remark, number_of(tail.port)) {
            (Some(remark), Some(port)) => Some(
                LinkShape {
                    password: s.take(k),
                    address: tail.address,
                    port,
                    params: tail.params,
                    remark,
                },
            ),
            _ => None,
        }
    } else {
        None
    }
}

/// There is one last split at most.
pub proof fn lemma_last_split_is(s: Seq<char>, k: int)
    requires
        is_last_split(s, k),
    ensures
        (exists|j: int| is_last_split(s, j)),
        (choose|j: int| is_last_split(s, j)) == k,
{
    let c = choose|j: int| is_last_split(s, j);
    if c < k {
        assert(!splits_at(s, k));
    } else if k < c {
        assert(!splits_at(s, c));
    }
}

/// The endings of a link, written out: `?` and the query if there is one,
/// then `#` and the remark if there is one.
pub open spec fn endings_text(params: Option<Seq<char>>, remark: Option<Seq<char>>) -> Seq<char> {
    (match params {
        Some(query) => seq!['?'] + query,
        None => Seq::<char>::empty(),
    }) + (match remark {
        Some(text) => seq!['#'] + text,
        None => Seq::<char>::empty(),
    })
}

/// What follows the `@` of a link, written out.
pub open spec fn tail_text(tail: Tail) -> Seq<char> {
    tail.address + seq![':'] + tail.port + endings_text(tail.params, tail.remark)
}

/// The parts are those of a well-formed tail: an address without `:`, a port
/// of digits, a query without `#` and a remark on one line, none of them
/// empty.
pub open spec fn is_tail(tail: Tail) -> bool {
    &&& tail.address.len() > 0
    &&& !tail.address.contains(':')
    &&& tail.port.len() > 0
    &&& all_digits(tail.port)
    &&& (tail.params matches Some(query) ==> query.len() > 0 && !query.contains('#'))
    &&& (tail.remark matches Some(text) ==> is_remark(text))
}

/// The run of digits at the start of a text is made of digits and ends at a
/// character that is none, or at the end of the text.
pub proof fn lemma_digit_run_ends(s: Seq<char>)
    ensures
        digit_run(s) <= s.len(),
        all_digits(s.take(digit_run(s) as int)),
        digit_run(s) < s.len() ==> !is_digit(s[digit_run(s) as int]),
    decreases s.len(),
{
    if s.len() > 0 && is_digit(s.first()) {
        let rest = s.drop_first();
        lemma_digit_run_ends(rest);
        let n = digit_run(rest) as int;
        assert forall|i: int| 0 <= i < n + 1 implies is_digit(#[trigger] s.take(n + 1)[i]) by {
            if i > 0 {
                assert(s.take(n + 1)[i] == rest.take(n)[i - 1]);
            }
        }
        if n + 1 < s.len() {
            assert(s[n + 1] == rest[n]);
        }
    } else {
        assert(s.take(0).len() == 0);
    }
}

/// Digits followed by a text that does not begin with a digit are the run of
/// digits of the whole.
pub proof fn lemma_digit_run_of_parts(digits: Seq<char>, rest: Seq<char>)
    requires
        all_digits(digits),
        rest.len() > 0 ==> !is_digit(rest[0]),
    ensures
        digit_run(digits + rest) == digits.len(),
    decreases digits.len(),
{
    let s = digits + rest;
    if digits.len() == 0 {
        assert(s =~= rest);
    } else {
        assert(is_digit(digits[0]));
        assert(s.first() == digits[0]);
        assert(s.drop_first() =~= digits.drop_first() + rest);
        assert forall|i: int| 0 <= i < digits.drop_first().len() implies is_digit(
            #[trigger] digits.drop_first()[i],
        ) by {
            assert(digits.drop_first()[i] == digits[i + 1]);
        }
        lemma_digit_run_of_parts(digits.drop_first(), rest);
    }
}

/// Endings that are written out from a query and a remark are read back as
/// that query and that remark.
pub proof fn lemma_endings_of_text(params: Option<Seq<char>>, remark: Option<Seq<char>>)
    requires
        params matches Some(query) ==> query.len() > 0 && !query.contains('#'),
        remark matches Some(text) ==> is_remark(text),
    ensures
        endings_of(endings_text(params, remark)) == Some((params, remark)),
{
    let u = endings_text(params, remark);
    match params {
        None => match remark {
            None => {
                assert(u.len() == 0);
            },
            Some(text) => {
                assert(u =~= seq!['#'] + text);
                assert(u.skip(1) =~= text);
            },
        },
        Some(query) => {
            assert(u[0] == '?');
            match remark {
                None => {
                    assert(u =~= seq!['?'] + query);
                    assert(u.skip(1) =~= query);
                    lemma_split_once_without_char(query, '#');
                },
                Some(text) => {
                    assert(u.skip(1) =~= query + seq!['#'] + text);
                    lemma_split_once_at_char(query, '#', text);
                },
            }
        },
    }
}

/// Endings that are read from a text are well-formed and write that text.
pub proof fn lemma_endings_of_sound(u: Seq<char>)
    requires
        endings_of(u) is Some,
    ensures
        ({
            let (params, remark) = endings_of(u)->Some_0;
            &&& endings_text(params, remark) == u
            &&& (params matches Some(query) ==> query.len() > 0 && !query.contains('#'))
            &&& (remark matches Some(text) ==> is_remark(text))
            &&& (u.len() > 0 ==> !is_digit(u[0]))
        }),
{
    if u.len() == 0 {
        assert(endings_text(None, None) =~= u);
    } else if u[0] == '#' {
        assert(seq!['#'] + u.skip(1) =~= u);
        assert(endings_text(None, Some(u.skip(1))) =~= u);
    } else {
        let q = u.skip(1);
        assert(seq!['?'] + q =~= u);
        match split_once(q, seq!['#']) {
            None => {
                assert(endings_text(Some(q), None) =~= u);
                if q.contains('#') {
                    let i = choose|i: int| 0 <= i < q.len() && q[i] == '#';
                    assert(q.subrange(i, i + 1) =~= seq!['#']);
                    lemma_occurrence_has_first(q, seq!['#'], i);
                }
            },
            Some((query, text)) => {
                lemma_split_once_sound(q, seq!['#']);
                assert(endings_text(Some(query), Some(text)) =~= u);
                if query.contains('#') {
                    let i = choose|i: int| 0 <= i < query.len() && query[i] == '#';
                    assert(q.subrange(i, i + 1) =~= seq!['#']);
                    assert(occurs_at(q, seq!['#'], i));
                }
            },
        }
    }
}

/// A well-formed tail that is written out is read back as it was: the
/// reading of a tail is complete and has one result only.
pub proof fn lemma_tail_of_text(tail: Tail)
    requires
        is_tail(tail),
    ensures
        tail_of(tail_text(tail)) == Some(tail),
{
    let endings = endings_text(tail.params, tail.remark);
    let rest = tail.port + endings;
    let t = tail_text(tail);
    assert(t =~= tail.address + seq![':'] + rest);
    lemma_split_once_at_char(tail.address, ':', rest);
    lemma_endings_of_text(tail.params, tail.remark);
    lemma_endings_of_sound(endings);
    lemma_digit_run_of_parts(tail.port, endings);
    let n = tail.port.len() as int;
    assert(rest.skip(n) =~= endings);
    assert(rest.take(n) =~= tail.port);
}

/// A tail that is read from a text is well-formed and writes that text: the
/// reading of a tail accepts nothing else.
pub proof fn lemma_tail_of_sound(t: Seq<char>)
    requires
        tail_of(t) is Some,
    ensures
        is_tail(tail_of(t)->Some_0),
        tail_text(tail_of(t)->Some_0) == t,
{
    lemma_split_once_sound(t, seq![':']);
    let (address, rest) = split_once(t, seq![':'])->Some_0;
    let n = digit_run(rest) as int;
    lemma_digit_run_ends(rest);
    lemma_endings_of_sound(rest.skip(n));
    let tail = tail_of(t)->Some_0;
    assert(rest =~= rest.take(n) + rest.skip(n));
    assert(tail_text(tail) =~= t);
    if address.contains(':') {
        let i = choose|i: int| 0 <= i < address.len() && address[i] == ':';
        assert(t.subrange(i, i + 1) =~= seq![':']);
        assert(occurs_at(t, seq![':'], i));
    }
}

/// The tail of a link with the given parts, its port written as `port`.
pub open spec fn tail_with(parts: LinkShape, port: Seq<char>) -> Tail {
    Tail { address: parts.address, port, params: parts.params, remark: Some(parts.remark) }
}

/// The parts are those of a well-formed link whose port is written as
/// `port`: the password is not empty and stays on one line, the tail is
/// well-formed, and `port` writes the port's number.
pub open spec fn is_link(parts: LinkShape, port: Seq<char>) -> bool {
    &&& parts.password.len() > 0
    &&& !parts.password.contains('\n')
    &&& is_tail(tail_with(parts, port))
    &&& number_of(port) == Some(parts.port)
}

/// The link with the given parts, its port written as `port`.
pub open spec fn link_text(parts: LinkShape, port: Seq<char>) -> Seq<char> {
    parts.password + seq!['@'] + tail_text(tail_with(parts, port))
}

/// What is read from a text are the parts of a well-formed link that
/// writes that text: nothing else is read as a link.
pub proof fn lemma_link_shape_sound(s: Seq<char>)
    requires
        link_shape(s) is Some,
    ensures
        exists|port: Seq<char>| #[trigger]
            is_link(link_shape(s)->Some_0, port) && link_text(link_shape(s)->Some_0, port) == s,
{
    let k = choose|k: int| is_last_split(s, k);
    let tail = tail_of(s.skip(k + 1))->Some_0;
    let parts = link_shape(s)->Some_0;
    lemma_tail_of_sound(s.skip(k + 1));
    assert(tail_with(parts, tail.port) == tail);
    assert(s =~= s.take(k) + seq!['@'] + s.skip(k + 1));
    assert(is_link(parts, tail.port));
    assert(link_text(parts, tail.port) == s);
}

/// A well-formed link that is written out is read back as its parts, where
/// no later `@` can separate a password from a tail: the password is the
/// longest that fits.
pub proof fn lemma_link_shape_of_text(parts: LinkShape, port: Seq<char>)
    requires
        is_link(parts, port),
        forall|j: int| parts.password.len() < j ==> !splits_at(link_text(parts, port), j),
    ensures
        link_shape(link_text(parts, port)) == Some(parts),
{
    let s = link_text(parts, port);
    let tail = tail_with(parts, port);
    let k = parts.password.len() as int;
    assert(s.take(k) =~= parts.password);
    assert(s.skip(k + 1) =~= tail_text(tail));
    lemma_tail_of_text(tail);
    assert(splits_at(s, k));
    lemma_last_split_is(s, k);
}

/// A well-formed link whose address, query and remark hold no `@` is read
/// back as its parts.
pub proof fn lemma_link_shape_of_plain_text(parts: LinkShape, port: Seq<char>)
    requires
        is_link(parts, port),
        !parts.address.contains('@'),
        parts.params matches Some(query) ==> !query.contains('@'),
        !parts.remark.contains('@'),
    ensures
        link_shape(link_text(parts, port)) == Some(parts),
{
    let s = link_text(parts, port);
    let tail = tail_with(parts, port);
    let t = tail_text(tail);
    let k = parts.password.len() as int;
    assert forall|j: int| k < j implies !splits_at(s, j) by {
        if j < s.len() && s[j] == '@' {
            let i = j - k - 1;
            assert(t[i] == '@');
            let a = parts.address.len() as int;
            let p = port.len() as int;
            if i < a {
                assert(parts.address[i] == '@');
            } else if i == a {
            } else if i < a + 1 + p {
                assert(is_digit(port[i - a - 1]));
            } else {
                let e = endings_text(parts.params, Some(parts.remark));
                let m = i - a - 1 - p;
                assert(e[m] == '@');
                match parts.params {
                    Some(query) => {
                        if m == 0 {
                        } else if m < 1 + query.len() {
                            assert(query[m - 1] == '@');
                        } else if m == 1 + query.len() {
                        } else {
                            assert(parts.remark[m - 2 - query.len()] == '@');
                        }
                    },
                    None => {
                        if m > 0 {
                            assert(parts.remark[m - 1] == '@');
                        }
                    },
                }
            }
        }
    }
    lemma_link_shape_of_text(parts, port);
}

/// What follows the `@` of a link, as the parser holds it.
struct TailParts {
    address: Vec<char>,
    port: Vec<char>,
    params: Option<Vec<char>>,
    remark: Option<Vec<char>>,
}

impl TailParts {
    spec fn shape(&self) -> Tail {
        Tail {
            address: self.address@,
            port: self.port@,
            params: match self.params {
                Some(q) => Some(q@),
                None => None,
            },
            remark: match self.remark {
                Some(r) => Some(r@),
                None => None,
            },
        }
    }
}

/// Whether `s` holds the character `c`.
fn has_char(s: &Vec<char>, c: char) -> (r: bool)
    ensures
        r == s@.contains(c),
{
    let mut i: usize = 0;
    while i < s.len()
        invariant
            i <= s.len(),
            forall|k: int| 0 <= k < i ==> s@[k] != c,
        decreases s.len() - i,
    {
        if s[i] == c {
            assert(s@[i as int] == c);
            return true;
        }
        i += 1;
    }
    false
}

/// The number of decimal digits that `s` begins with.
fn count_digits(s: &Vec<char>) -> (n: usize)
    ensures
        n == digit_run(s@),
        n <= s.len(),
{
    let mut n: usize = 0;
    assert(s@.skip(0) == s@);
    while n < s.len() && is_ascii_digit(s[n])
        invariant
            n <= s.len(),
            digit_run(s@) == n + digit_run(s@.skip(n as int)),
        decreases s.len() - n,
    {
        assert(s@.skip(n as int).drop_first() == s@.skip(n + 1));
        n += 1;
    }
    n
}

/// Reads the endings of a link.
fn parse_endings(u: &Vec<char>) -> (r: Option<(Option<Vec<char>>, Option<Vec<char>>)>)
    ensures
        match r {
            Some((params, remark)) => endings_of(u@) == Some(
                (
                    match params {
                        Some(q) => Some(q@),
                        None => None,
                    },
                    match remark {
                        Some(t) => Some(t@),
                        None => None,
                    },
                ),
            ),
            None => endings_of(u@) is None,
        },
{
    if u.len() == 0 {
        return Some((None, None));
    }
    let rest = slice_of(u, 1, u.len());
    assert(rest@ == u@.skip(1));
    if u[0] == '#' {
        if rest.len() > 0 && !has_char(&rest, '\n') {
            Some((None, Some(rest)))
        } else {
            None
        }
    } else if u[0] == '?' {
        let mut hash: Vec<char> = Vec::new();
        hash.push('#');
        assert(hash@ == seq!['#']);
        match split_at_first(&rest, &hash) {
            None => if rest.len() > 0 {
                Some((Some(rest), None))
            } else {
                None
            },
            Some((query, remark)) => if query.len() > 0 && remark.len() > 0 && !has_char(
                &remark,
                '\n',
            ) {
                Some((Some(query), Some(remark)))
            } else {
                None
            },
        }
    } else {
        None
    }
}

/// Reads what follows the `@` of a link.
fn parse_tail(t: &Vec<char>) -> (r: Option<TailParts>)
    ensures
        match r {
            Some(parts) => tail_of(t@) == Some(parts.shape()),
            None => tail_of(t@) is None,
        },
{
    let mut colon: Vec<char> = Vec::new();
    colon.push(':');
    assert(colon@ == seq![':']);
    match split_at_first(t, &colon) {
        None => None,
        Some((address, rest)) => {
            let n: usize = count_digits(&rest);
            let port = slice_of(&rest, 0, n);
            let after = slice_of(&rest, n, rest.len());
            assert(port@ == rest@.take(n as int));
            assert(after@ == rest@.skip(n as int));
            match parse_endings(&after) {
                Some((params, remark)) => if address.len() > 0 && n > 0 {
                    Some(TailParts { address, port, params, remark })
                } else {
                    None
                },
                None => None,
            }
        },
    }
}

/// Reads the part of a proxy link that follows `scheme://`.
///
/// The result is `None` where the text has not the shape
/// `password@address:port`, `?params` if any, `#remark`, or where the port is
/// no number of 32 bits.
pub fn parse_link(s: &Vec<char>) -> (r: Option<LinkParts>)
    ensures
        r.deep_view() == link_shape(s@),
{
    let mut line_feed: Vec<char> = Vec::new();
    line_feed.push('\n');
    // Only an `@` before the first line feed can end the password.
    let limit: usize = match find(s, &line_feed) {
        Some(i) => i,
        None => s.len(),
    };
    proof {
        assert(line_feed@ == seq!['\n']);
        assert forall|k: int| 0 < k < s.len() implies (k <= limit <==> !s@.take(k).contains(
            '\n',
        )) by {
            if k <= limit {
                if s@.take(k).contains('\n') {
                    let i = choose|i: int| 0 <= i < k && s@.take(k)[i] == '\n';
                    assert(s@.subrange(i, i + 1) == seq!['\n']);
                    assert(occurs_at(s@, line_feed@, i));
                }
            } else {
                assert(occurs_at(s@, line_feed@, limit as int));
                assert(s@.subrange(limit as int, limit + 1)[0] == '\n');
                assert(s@.take(k)[limit as int] == '\n');
            }
        }
    }
    let mut k: usize = s.len();
    while k > 1
        invariant
            k <= s.len(),
            limit <= s.len(),
            forall|j: int| 0 < j < s.len() ==> (j <= limit <==> !s@.take(j).contains('\n')),
            forall|j: int| k <= j ==> !splits_at(s@, j),
        decreases k,
    {
        k -= 1;
        if s[k] == '@' && k <= limit {
            let tail = slice_of(s, k + 1, s.len());
            assert(tail@ == s@.skip(k + 1));
            match parse_tail(&tail) {
                Some(parts) => {
                    proof {
                        assert(splits_at(s@, k as int));
                        lemma_last_split_is(s@, k as int);
                    }
                    let number = parse_u32(&parts.port);
                    return match (parts.remark, number) {
                        (Some(remark), Some(port)) => Some(
                            LinkParts {
                                password: string_of(&slice_of(s, 0, k)),
                                address: string_of(&parts.address),
                                port,
                                params: match parts.params {
                                    Some(q) => Some(string_of(&q)),
                                    None => None,
                                },
                                remark: string_of(&remark),
                            },
                        ),
                        _ => None,
                    };
                },
                None => {},
            }
        }
    }
    None
}

} // verus!
