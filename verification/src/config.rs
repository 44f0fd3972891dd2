//! The settings of the proxy.
use crate::text;
use vstd::prelude::*;

verus! {

/// Where embeddings are kept.
#[derive(Debug, Clone, Copy, PartialEq, Eq, Structural)]
pub enum VectorBackend {
    Memory,
    Qdrant,
}

/// The settings as the environment gives them; `None` where a variable is not set. The
/// similarity threshold is the bits of a single-precision number, and also `None` where the
/// variable holds no number.
#[derive(Debug)]
pub struct Environment {
    pub host: Option<String>,
    pub port: Option<String>,
    pub upstream_url: Option<String>,
    pub upstream_api_key: Option<String>,
    pub similarity_threshold: Option<u32>,
    pub vector_backend: Option<String>,
    pub qdrant_url: Option<String>,
    pub qdrant_collection: Option<String>,
    pub model_id: Option<String>,
    pub cors_allowed_origins: Option<String>,
}

/// The settings. The similarity threshold is the bits of a single-precision number.
#[derive(Debug)]
pub struct Config {
    pub host: String,
    pub port: u16,
    pub upstream_url: String,
    pub upstream_api_key: Option<String>,
    pub similarity_threshold: u32,
    pub vector_backend: VectorBackend,
    pub qdrant_url: String,
    pub qdrant_collection: String,
    pub model_id: String,
    /// The origins that may ask from a browser; none where it is empty.
    pub cors_allowed_origins: Vec<String>,
}

/// The port where none is given.
pub const DEFAULT_PORT: u16 = 8080;

/// The bits of the threshold where none is given: those of 0.95.
pub const DEFAULT_THRESHOLD: u32 = 0x3f73_3333;

/// The number that decimal digits stand for.
pub open spec fn decimal_value(digits: Seq<char>) -> int
    decreases digits.len(),
{
    if digits.len() == 0 {
        0
    } else {
        10 * decimal_value(digits.drop_last()) + (digits.last() as int - '0' as int)
    }
}

/// The digits of a number: what follows an optional plus sign.
pub open spec fn digits_of(s: Seq<char>) -> Seq<char> {
    if s.len() > 0 && s[0] == '+' {
        s.drop_first()
    } else {
        s
    }
}

/// The port that a text stands for: an optional plus sign and then digits alone, at least
/// one, for a number of 16 bits.
pub open spec fn port_of(s: Seq<char>) -> Option<u16> {
    let digits = digits_of(s);
    if digits.len() > 0 && (forall|i: int| 0 <= i < digits.len() ==> '0' <= #[trigger] digits[i] <= '9')
        && decimal_value(digits) <= u16::MAX {
        Some(decimal_value(digits) as u16)
    } else {
        None
    }
}

/// The port that a text stands for: an optional plus sign and then digits alone, for a number
/// of 16 bits.
pub fn parse_port(s: &str) -> (r: Option<u16>)
    ensures
        r == port_of(s@),
{
    let chars = text::chars_of(s);
    let start: usize = if chars.len() > 0 && chars[0] == '+' {
        1
    } else {
        0
    };
    let ghost digits = digits_of(s@);
    assert(digits =~= chars@.skip(start as int));
    if chars.len() == start {
        return None;
    }
    let mut value: u32 = 0;
    let mut i: usize = start;
    assert(digits.take(0) =~= Seq::<char>::empty());
    while i < chars.len()
        invariant
            start <= i <= chars@.len(),
            digits == chars@.skip(start as int),
            digits == digits_of(s@),
            value <= u16::MAX,
            value == decimal_value(digits.take(i - start)),
            forall|j: int| 0 <= j < i - start ==> '0' <= #[trigger] digits[j] <= '9',
        decreases chars@.len() - i,
    {
        let c = chars[i];
        let ghost k = i - start;
        assert(digits[k] == c);
        if c < '0' || '9' < c {
            return None;
        }
        let digit: u32 = c as u32 - '0' as u32;
        assert(digits.take(k + 1).drop_last() =~= digits.take(k));
        value = 10 * value + digit;
        if value > 65535 {
            proof {
                lemma_decimal_grows(digits, k + 1);
            }
            return None;
        }
        i += 1;
    }
    assert(digits.take(i - start) =~= digits);
    Some(value as u16)
}

/// More digits never make a smaller number.
proof fn lemma_decimal_grows(digits: Seq<char>, n: int)
    requires
        0 <= n <= digits.len(),
        forall|i: int| 0 <= i < n ==> '0' <= #[trigger] digits[i] <= '9',
    ensures
        decimal_value(digits.take(n)) >= 0,
        (forall|i: int| 0 <= i < digits.len() ==> '0' <= #[trigger] digits[i] <= '9')
            ==> decimal_value(digits) >= decimal_value(digits.take(n)),
    decreases digits.len(), n,
{
    if n < digits.len() {
        lemma_decimal_grows(digits.drop_last(), n);
        assert(digits.drop_last().take(n) =~= digits.take(n));
        if forall|i: int| 0 <= i < digits.len() ==> '0' <= #[trigger] digits[i] <= '9' {
            assert forall|i: int| 0 <= i < digits.len() - 1 implies '0'
                <= #[trigger] digits.drop_last()[i] <= '9' by {
                assert('0' <= digits[i] <= '9');
            }
            assert('0' <= digits[digits.len() - 1] <= '9');
        }
    } else {
        assert(digits.take(n) =~= digits);
        if n > 0 {
            assert('0' <= digits[n - 1] <= '9');
            lemma_decimal_grows(digits.drop_last(), n - 1);
            assert(digits.drop_last().take(n - 1) =~= digits.drop_last());
        }
    }
}

/// A text in lower case.
pub uninterp spec fn lower_case(s: Seq<char>) -> Seq<char>;

/// An ASCII character in lower case.
pub open spec fn ascii_lower(c: char) -> char {
    if 'A' <= c <= 'Z' {
        (c as int + 32) as char
    } else {
        c
    }
}

/// Calls `str::to_lowercase`: a function of the text alone, which changes the capitals of an
/// ASCII text to small letters and nothing else.
#[verifier::external_body]
fn to_lower_case(s: &str) -> (r: String)
    ensures
        r@ == lower_case(s@),
        vstd::utf8::is_ascii_chars(s@) ==> r@ == s@.map_values(|c: char| ascii_lower(c)),
{
    s.to_lowercase()
}

/// The value of a variable, or a default.
pub open spec fn or_default(value: Option<String>, default: Seq<char>) -> Seq<char> {
    match value {
        Some(text) => text@,
        None => default,
    }
}

/// The characters of an optional string.
pub open spec fn optional_text(value: Option<String>) -> Option<Seq<char>> {
    match value {
        Some(text) => Some(text@),
        None => None,
    }
}

/// The backend for the lower-case name of one: `qdrant`, or memory for every other name.
pub open spec fn backend_for(name: Seq<char>) -> VectorBackend {
    if name == "qdrant"@ {
        VectorBackend::Qdrant
    } else {
        VectorBackend::Memory
    }
}

/// The backend for the lower-case name of one.
pub fn choose_backend(name: &str) -> (r: VectorBackend)
    ensures
        r == backend_for(name@),
{
    if text::same(name, "qdrant") {
        VectorBackend::Qdrant
    } else {
        VectorBackend::Memory
    }
}

/// The origins of a list with commas: its pieces without white space at their ends, without
/// those that are empty then.
pub open spec fn origins_of(list: Seq<char>) -> Seq<Seq<char>> {
    text::pieces(list, ',').map_values(|piece: Seq<char>| text::trimmed(piece)).filter(
        |origin: Seq<char>| origin.len() > 0,
    )
}

/// The origins of a list with commas.
pub fn split_origins(list: &str) -> (r: Vec<String>)
    ensures
        text::texts(r@) == origins_of(list@),
{
    let parts = text::split(list, ',');
    let ghost all = text::texts(parts@).map_values(|piece: Seq<char>| text::trimmed(piece));
    let ghost kept = |origin: Seq<char>| origin.len() > 0;
    let mut origins: Vec<String> = Vec::new();
    let mut i: usize = 0;
    assert(all.take(0) =~= Seq::<Seq<char>>::empty());
    assert(text::texts(origins@) =~= Seq::<Seq<char>>::empty());
    proof {
        reveal(Seq::filter);
    }
    while i < parts.len()
        invariant
            i <= parts@.len(),
            all == text::texts(parts@).map_values(|piece: Seq<char>| text::trimmed(piece)),
            kept == (|origin: Seq<char>| origin.len() > 0),
            text::texts(origins@) == all.take(i as int).filter(kept),
        decreases parts@.len() - i,
    {
        let origin = text::trim(parts[i].as_str());
        let ghost before = text::texts(origins@);
        proof {
            reveal(Seq::filter);
        }
        assert(all.take(i + 1).drop_last() =~= all.take(i as int));
        if !origin.as_str().is_empty() {
            let ghost added = origin@;
            origins.push(origin);
            assert(text::texts(origins@) =~= before.push(added));
        }
        i += 1;
    }
    assert(all.take(i as int) =~= all);
    origins
}

/// The value of a variable, or a default.
fn take_or(value: Option<String>, default: &str) -> (r: String)
    ensures
        r@ == or_default(value, default@),
{
    match value {
        Some(text) => text,
        None => default.to_owned(),
    }
}

impl Config {
    /// The settings that the environment asks for, with the defaults for what it leaves out.
    pub fn from_env(env: Environment) -> (r: Self)
        ensures
            r.host@ == or_default(env.host, "0.0.0.0"@),
            r.port == (match env.port {
                Some(port) => match port_of(port@) {
                    Some(number) => number,
                    None => DEFAULT_PORT,
                },
                None => DEFAULT_PORT,
            }),
            r.upstream_url@ == or_default(
                env.upstream_url,
                "https://api.openai.com/v1/chat/completions"@,
            ),
            optional_text(r.upstream_api_key) == optional_text(env.upstream_api_key),
            r.similarity_threshold == (match env.similarity_threshold {
                Some(bits) => bits,
                None => DEFAULT_THRESHOLD,
            }),
            r.vector_backend == backend_for(lower_case(or_default(env.vector_backend, "memory"@))),
            vstd::utf8::is_ascii_chars(or_default(env.vector_backend, "memory"@))
                ==> r.vector_backend == backend_for(
                or_default(env.vector_backend, "memory"@).map_values(|c: char| ascii_lower(c)),
            ),
            r.qdrant_url@ == or_default(env.qdrant_url, "http://localhost:6334"@),
            r.qdrant_collection@ == or_default(env.qdrant_collection, "infercache"@),
            r.model_id@ == or_default(env.model_id, "sentence-transformers/all-MiniLM-L6-v2"@),
            text::texts(r.cors_allowed_origins@) == origins_of(
                or_default(env.cors_allowed_origins, ""@),
            ),
    {
        let port: u16 = match &env.port {
            Some(port) => match parse_port(port.as_str()) {
                Some(number) => number,
                None => DEFAULT_PORT,
            },
            None => DEFAULT_PORT,
        };
        let similarity_threshold: u32 = match env.similarity_threshold {
            Some(bits) => bits,
            None => DEFAULT_THRESHOLD,
        };
        let backend_name = to_lower_case(take_or(env.vector_backend, "memory").as_str());
        let origins = take_or(env.cors_allowed_origins, "");
        Config {
            host: take_or(env.host, "0.0.0.0"),
            port,
            upstream_url: take_or(env.upstream_url, "https://api.openai.com/v1/chat/completions"),
            upstream_api_key: env.upstream_api_key,
            similarity_threshold,
            vector_backend: choose_backend(backend_name.as_str()),
            qdrant_url: take_or(env.qdrant_url, "http://localhost:6334"),
            qdrant_collection: take_or(env.qdrant_collection, "infercache"),
            model_id: take_or(env.model_id, "sentence-transformers/all-MiniLM-L6-v2"),
            cors_allowed_origins: split_origins(origins.as_str()),
        }
    }
}

/// Every allowed origin has some character, and is a piece of the list without the white space
/// at its ends.
pub proof fn law_origins_are_trimmed(list: Seq<char>)
    ensures
        forall|i: int|
            0 <= i < origins_of(list).len() ==> {
                &&& (#[trigger] origins_of(list)[i]).len() > 0
                &&& exists|piece: Seq<char>|
                    text::pieces(list, ',').contains(piece) && origins_of(list)[i]
                        == #[trigger] text::trimmed(piece)
            },
{
    let trimmed = text::pieces(list, ',').map_values(|piece: Seq<char>| text::trimmed(piece));
    let kept = |origin: Seq<char>| origin.len() > 0;
    assert forall|i: int| 0 <= i < origins_of(list).len() implies {
        &&& (#[trigger] origins_of(list)[i]).len() > 0
        &&& exists|piece: Seq<char>|
            text::pieces(list, ',').contains(piece) && origins_of(list)[i]
                == #[trigger] text::trimmed(piece)
    } by {
        let origin = origins_of(list)[i];
        assert(trimmed.filter(kept).contains(origin));
        trimmed.lemma_filter_contains_rev(kept, origin);
        trimmed.lemma_filter_pred(kept, i);
        assert(kept(origin));
        assert(trimmed.contains(origin));
        let k = choose|k: int| 0 <= k < trimmed.len() && trimmed[k] == origin;
        let piece = text::pieces(list, ',')[k];
        assert(text::pieces(list, ',').contains(piece) && origin == text::trimmed(piece));
    }
}

/// No list of origins allows no origin.
pub proof fn law_no_list_allows_nothing()
    ensures
        origins_of(Seq::empty()).len() == 0,
{
    reveal(Seq::filter);
    let pieces = text::pieces(Seq::empty(), ',');
    let trimmed = pieces.map_values(|piece: Seq<char>| text::trimmed(piece));
    assert(trimmed =~= seq![Seq::<char>::empty()]);
    assert(trimmed.drop_last() =~= Seq::<Seq<char>>::empty());
    reveal_with_fuel(Seq::filter, 2);
}

/// One more digit makes ten times the number and the value of the digit.
pub proof fn law_decimal_digits(digits: Seq<char>, digit: char)
    ensures
        decimal_value(Seq::empty()) == 0,
        decimal_value(digits.push(digit)) == 10 * decimal_value(digits) + (digit as int
            - '0' as int),
{
    assert(digits.push(digit).drop_last() =~= digits);
}

/// A text stands for a port exactly where it is decimal digits, at least one, with or without
/// a plus sign before them, for a number of 16 bits; and then for that number.
pub proof fn law_ports(digits: Seq<char>)
    requires
        digits.len() == 0 || digits[0] != '+',
    ensures
        port_of(seq!['+'] + digits) == port_of(digits),
        port_of(digits) is Some <==> digits.len() > 0 && decimal_value(digits) <= 65535 && forall|
            i: int,
        |
            0 <= i < digits.len() ==> '0' <= #[trigger] digits[i] <= '9',
        port_of(digits) is Some ==> port_of(digits)->Some_0 == decimal_value(digits),
{
    assert((seq!['+'] + digits).drop_first() =~= digits);
    if port_of(digits) is Some {
        assert(digits.take(0) =~= Seq::<char>::empty());
        lemma_decimal_grows(digits, 0);
    }
}

/// No text with two plus signs at its start stands for a port.
pub proof fn law_one_plus_sign(rest: Seq<char>)
    ensures
        port_of(seq!['+', '+'] + rest) is None,
{
    let s = seq!['+', '+'] + rest;
    assert(digits_of(s)[0] == '+');
}

/// A variable that is set counts as it is, also where it is empty; the default is only for
/// one that is not set.
pub proof fn law_set_variables_count(value: String, default: Seq<char>)
    ensures
        or_default(Some(value), default) == value@,
        or_default(None, default) == default,
        optional_text(Some(value)) == Some(value@),
        optional_text(None) is None,
{
}

/// Nothing but the name of the database, in small letters, asks for it.
pub proof fn law_backends(name: Seq<char>)
    ensures
        backend_for(name) is Qdrant <==> name == seq!['q', 'd', 'r', 'a', 'n', 't'],
        backend_for(name) is Memory <==> name != seq!['q', 'd', 'r', 'a', 'n', 't'],
{
    reveal_strlit("qdrant");
    assert("qdrant"@ =~= seq!['q', 'd', 'r', 'a', 'n', 't']);
}

/// A capital letter of ASCII is 32 before its small one, and no other character changes.
pub proof fn law_lower_case_of_ascii(c: char)
    ensures
        'A' <= c <= 'Z' ==> ascii_lower(c) as int == c as int + 32,
        !('A' <= c <= 'Z') ==> ascii_lower(c) == c,
{
}

/// A comma parts a list of origins, and an item of it is its origin without the white space
/// at its ends, or none where nothing else is in it.
pub proof fn law_origins_by_comma(item: Seq<char>, rest: Seq<char>)
    requires
        !item.contains(','),
    ensures
        origins_of(item.push(',') + rest) == origins_of(item) + origins_of(rest),
        text::trimmed(item).len() > 0 ==> origins_of(item) == seq![text::trimmed(item)],
        text::trimmed(item).len() == 0 ==> origins_of(item).len() == 0,
{
    let trim = |piece: Seq<char>| text::trimmed(piece);
    let kept = |origin: Seq<char>| origin.len() > 0;
    text::law_one_piece(item, ',');
    text::law_separator_parts(item, rest, ',');
    let first = seq![item].map_values(trim);
    let others = text::pieces(rest, ',').map_values(trim);
    assert(first =~= seq![text::trimmed(item)]);
    assert((seq![item] + text::pieces(rest, ',')).map_values(trim) =~= first + others);
    lemma_filter_in_runs(first, others);
    reveal(Seq::filter);
    assert(first.drop_last() =~= Seq::<Seq<char>>::empty());
    reveal_with_fuel(Seq::filter, 2);
    if text::trimmed(item).len() > 0 {
        assert(first.filter(kept) =~= seq![text::trimmed(item)]);
    } else {
        assert(first.filter(kept) =~= Seq::<Seq<char>>::empty());
    }
}

/// What is kept of two runs is what is kept of the first and then of the second.
proof fn lemma_filter_in_runs(first: Seq<Seq<char>>, second: Seq<Seq<char>>)
    ensures
        (first + second).filter(|origin: Seq<char>| origin.len() > 0) == first.filter(
            |origin: Seq<char>| origin.len() > 0,
        ) + second.filter(|origin: Seq<char>| origin.len() > 0),
    decreases second.len(),
{
    let kept = |origin: Seq<char>| origin.len() > 0;
    reveal(Seq::filter);
    if second.len() == 0 {
        assert(first + second =~= first);
        assert(first.filter(kept) + second.filter(kept) =~= first.filter(kept));
    } else {
        lemma_filter_in_runs(first, second.drop_last());
        assert((first + second).drop_last() =~= first + second.drop_last());
        assert((first + second).filter(kept) =~= first.filter(kept) + second.filter(kept));
    }
}

}
