use vstd::prelude::*;

use crate::error::Error;
use crate::event::Event;

verus! {

/// The character of the decimal digit `d` (`0 <= d < 10`).
pub open spec fn digit_char(d: int) -> char {
    (d + '0' as int) as char
}

/// Whether `c` is a decimal digit.
pub open spec fn is_digit(c: char) -> bool {
    '0' <= c && c <= '9'
}

/// The value of the decimal digit `c`.
pub open spec fn digit_value(c: char) -> int {
    c as int - '0' as int
}

/// The decimal notation of `n`, without leading zeros.
pub open spec fn decimal(n: nat) -> Seq<char>
    decreases n,
{
    if n < 10 {
        seq![digit_char(n as int)]
    } else {
        decimal(n / 10).push(digit_char((n % 10) as int))
    }
}

/// The number that the digits `s` denote.
pub open spec fn digits_value(s: Seq<char>) -> nat
    decreases s.len(),
{
    if s.len() == 0 {
        0
    } else {
        (digits_value(s.drop_last()) * 10 + digit_value(s.last())) as nat
    }
}

/// Whether `s` is made of decimal digits only.
pub open spec fn all_digits(s: Seq<char>) -> bool {
    forall|i: int| 0 <= i < s.len() ==> is_digit(#[trigger] s[i])
}

/// What parsing `s` as a `u32` gives: an optional `+` followed by at least
/// one digit, denoting a value that fits in a `u32`.
pub open spec fn parse_u32_spec(s: Seq<char>) -> Option<u32> {
    let d = if s.len() > 0 && s[0] == '+' {
        s.drop_first()
    } else {
        s
    };
    if d.len() > 0 && all_digits(d) && digits_value(d) <= u32::MAX {
        Some(digits_value(d) as u32)
    } else {
        None
    }
}

/// The decimal notation of a number is made of digits, does not start with a
/// sign, and denotes the number.
pub proof fn lemma_decimal(n: nat)
    ensures
        decimal(n).len() > 0,
        all_digits(decimal(n)),
        digits_value(decimal(n)) == n,
    decreases n,
{
    if n >= 10 {
        lemma_decimal(n / 10);
        let s = decimal(n);
        assert(s.drop_last() =~= decimal(n / 10));
        assert(digit_value(digit_char((n % 10) as int)) == n % 10);
        assert(digits_value(s) == digits_value(decimal(n / 10)) * 10 + n % 10);
        assert forall|i: int| 0 <= i < s.len() implies is_digit(#[trigger] s[i]) by {
            if i < s.len() - 1 {
                assert(s[i] == decimal(n / 10)[i]);
            }
        }
    } else {
        let s = decimal(n);
        assert(s.drop_last() =~= Seq::<char>::empty());
        assert(s.last() == digit_char(n as int));
        assert(digit_value(digit_char(n as int)) == n);
        assert(digits_value(s) == digits_value(s.drop_last()) * 10 + digit_value(s.last()));
    }
}

/// The law that formatting then parsing a `u32` gives it back.
pub proof fn lemma_parse_decimal(n: u32)
    ensures
        parse_u32_spec(decimal(n as nat)) == Some(n),
{
    lemma_decimal(n as nat);
    assert(is_digit(decimal(n as nat)[0]));
}

/// The kind of an event, which decides the extension of its file.
#[derive(Debug, PartialEq, Eq)]
pub enum EventKind {
    Binary,
    Text,
}

/// The kind of `event`.
pub open spec fn kind_of(event: Event) -> EventKind {
    match event {
        Event::Binary(_, _) => EventKind::Binary,
        Event::Text(_, _) => EventKind::Text,
    }
}

/// The extension of the files of events of kind `kind`.
pub open spec fn extension_of(kind: EventKind) -> Seq<char> {
    match kind {
        EventKind::Binary => "bin"@,
        EventKind::Text => "txt"@,
    }
}

/// The name, without extension, of the file of the event with id `id` and
/// source `source`: the id in decimal, an underscore, then the source.
pub open spec fn event_file_stem(id: u32, source: Seq<char>) -> Seq<char> {
    decimal(id as nat) + seq!['_'] + source
}

/// What the name of a stored file says: the file holds the event of kind
/// `kind` with id `id` and source `source`.
#[derive(Debug, PartialEq, Eq)]
pub struct StoredFileName {
    pub id: u32,
    pub source: String,
    pub kind: EventKind,
}

/// Why the stem of a stored file's name cannot be read.
#[derive(Debug, PartialEq, Eq)]
pub enum StemProblem {
    /// The stem has no underscore.
    MissingSeparator,
    /// The part of the stem before its first underscore is not a `u32`.
    InvalidId,
}

/// Whether the stem of a stored file's name can be read: it has an
/// underscore, and the part before the first one is a `u32`.
pub open spec fn stem_is_valid(stem: Seq<char>) -> bool {
    match first_index_of(stem, '_') {
        None => false,
        Some(i) => parse_u32_spec(stem.subrange(0, i)) is Some,
    }
}

/// The message of the error that a stored file with an unknown extension gives.
pub open spec fn invalid_extension_message() -> Seq<char> {
    "Invalid file extension"@
}

/// The position of the first `c` in `s`, if any.
pub open spec fn first_index_of(s: Seq<char>, c: char) -> Option<int> {
    if exists|i: int| 0 <= i < s.len() && s[i] == c && forall|j: int| 0 <= j < i ==> s[j] != c {
        Some(choose|i: int| 0 <= i < s.len() && s[i] == c && forall|j: int| 0 <= j < i ==> s[j] != c)
    } else {
        None
    }
}

/// The law that the file name a stored event gets is read back as that
/// event's id and source: the first underscore of the stem follows the id,
/// which parses back, and the rest of the stem is the source.
pub proof fn lemma_event_file_stem_decodes(id: u32, source: Seq<char>)
    ensures
        ({
            let stem = event_file_stem(id, source);
            let k = decimal(id as nat).len() as int;
            &&& first_index_of(stem, '_') == Some(k)
            &&& parse_u32_spec(stem.subrange(0, k)) == Some(id)
            &&& stem.subrange(k + 1, stem.len() as int) == source
        }),
{
    let stem = event_file_stem(id, source);
    let digits = decimal(id as nat);
    let k = digits.len() as int;
    lemma_decimal(id as nat);
    lemma_parse_decimal(id);
    assert(stem.subrange(0, k) =~= digits);
    assert(stem.subrange(k + 1, stem.len() as int) =~= source);
    assert(stem[k] == '_');
    assert forall|j: int| 0 <= j < k implies stem[j] != '_' by {
        assert(stem[j] == digits[j]);
        assert(is_digit(digits[j]));
    }
    let i = choose|i: int|
        0 <= i < stem.len() && stem[i] == '_' && forall|j: int| 0 <= j < i ==> stem[j] != '_';
    assert(0 <= k < stem.len() && stem[k] == '_' && forall|j: int| 0 <= j < k ==> stem[j] != '_');
    if i < k {
        assert(stem[i] != '_');
    } else if i > k {
        assert(stem[k] != '_');
    }
}

/// Appends the decimal notation of `n` to `s`.
fn push_decimal(s: &mut String, n: u32)
    ensures
        final(s)@ == old(s)@ + decimal(n as nat),
    decreases n,
{
    if n >= 10 {
        push_decimal(s, n / 10);
    }
    let d = (n % 10) as usize;
    let digits = "0123456789";
    proof {
        reveal_strlit("0123456789");
    }
    let c = digits.substring_char(d, d + 1);
    assert(c@ =~= seq![digit_char(d as int)]);
    s.append(c);
    proof {
        if n >= 10 {
            assert(old(s)@ + decimal(n as nat) =~= old(s)@ + decimal((n / 10) as nat) + c@);
        } else {
            assert(decimal(n as nat) =~= c@);
        }
    }
}

/// Parses `s` as a `u32` the way `str::parse::<u32>` does.
pub fn parse_u32(s: &str) -> (r: Option<u32>)
    ensures
        r == parse_u32_spec(s@),
{
    let len = s.unicode_len();
    let mut start: usize = 0;
    if len > 0 && s.get_char(0) == '+' {
        start = 1;
    }
    let ghost d = s@.subrange(start as int, len as int);
    assert(d =~= (if s@.len() > 0 && s@[0] == '+' { s@.drop_first() } else { s@ }));
    if start == len {
        return None;
    }
    // `value` is the value of the digits read so far, or `u32::MAX + 1` when
    // that is larger.
    let mut value: u64 = 0;
    let mut i: usize = start;
    while i < len
        invariant
            start <= i <= len,
            len == s@.len(),
            d == s@.subrange(start as int, len as int),
            d == (if s@.len() > 0 && s@[0] == '+' {
                s@.drop_first()
            } else {
                s@
            }),
            all_digits(s@.subrange(start as int, i as int)),
            value == if digits_value(s@.subrange(start as int, i as int)) <= u32::MAX {
                digits_value(s@.subrange(start as int, i as int))
            } else {
                u32::MAX as nat + 1
            },
        decreases len - i,
    {
        let c = s.get_char(i);
        if c < '0' || c > '9' {
            assert(!all_digits(d)) by {
                assert(d[i - start] == c);
                assert(!is_digit(d[i - start]));
            }
            return None;
        }
        let ghost prefix = s@.subrange(start as int, i as int);
        let ghost next = s@.subrange(start as int, i + 1);
        assert(next.drop_last() =~= prefix);
        assert(next.last() == c);
        let digit = (c as u32 - '0' as u32) as u64;
        let v = value * 10 + digit;
        proof {
            let p = digits_value(prefix);
            assert(digits_value(next) == p * 10 + digit);
            if p > u32::MAX {
                assert(p * 10 + digit > u32::MAX) by (nonlinear_arith)
                    requires
                        p > u32::MAX,
                        digit >= 0,
                ;
            }
        }
        value = if v > u32::MAX as u64 {
            u32::MAX as u64 + 1
        } else {
            v
        };
        i = i + 1;
        assert forall|k: int| 0 <= k < next.len() implies is_digit(#[trigger] next[k]) by {
            if k < next.len() - 1 {
                assert(next[k] == prefix[k]);
            }
        }
    }
    if value > u32::MAX as u64 {
        None
    } else {
        Some(value as u32)
    }
}

/// A storage that keeps each event in a file of its own, in a folder.
#[derive(Clone)]
pub struct FileSystemStorage {
    path: String,
}

impl FileSystemStorage {
    /// The folder of the storage.
    pub closed spec fn spec_path(&self) -> Seq<char> {
        self.path@
    }

    /// Creates a storage in the folder `path`.
    pub fn new(path: String) -> (s: FileSystemStorage)
        ensures
            s.spec_path() == path@,
    {
        FileSystemStorage { path }
    }

    /// The folder of the storage.
    pub fn path(&self) -> (p: &String)
        ensures
            p@ == self.spec_path(),
    {
        &self.path
    }

    /// The path of the file that holds the event `event` with id `id`: the
    /// folder, a backslash, the stem of the file, a dot and the extension of
    /// the event's kind.
    pub fn event_file_path(&self, id: u32, event: &Event) -> (p: String)
        ensures
            p@ == self.spec_path() + "\\"@ + event_file_stem(id, event.spec_source()) + "."@
                + extension_of(kind_of(*event)),
    {
        proof {
            reveal_strlit("\\");
            reveal_strlit("_");
            reveal_strlit(".");
            reveal_strlit("txt");
            reveal_strlit("bin");
        }
        let mut p = self.path.clone();
        p.append("\\");
        push_decimal(&mut p, id);
        p.append("_");
        let source = event.source();
        p.append(source.as_str());
        p.append(".");
        let extension = match event {
            Event::Binary(_, _) => "bin",
            Event::Text(_, _) => "txt",
        };
        p.append(extension);
        assert(p@ =~= self.spec_path() + "\\"@ + event_file_stem(id, event.spec_source()) + "."@
            + extension_of(kind_of(*event)));
        p
    }
}

/// The position of the first underscore of `stem`, if any.
fn separator(stem: &str) -> (r: Option<usize>)
    ensures
        match r {
            None => first_index_of(stem@, '_') is None,
            Some(k) => first_index_of(stem@, '_') == Some(k as int),
        },
{
    let len = stem.unicode_len();
    let mut i: usize = 0;
    while i < len
        invariant
            i <= len,
            len == stem@.len(),
            forall|j: int| 0 <= j < i ==> stem@[j] != '_',
        ensures
            i == len || (i < len && stem@[i as int] == '_'),
        decreases len - i,
    {
        if stem.get_char(i) == '_' {
            break;
        }
        i = i + 1;
    }
    if i == len {
        assert(first_index_of(stem@, '_') is None);
        return None;
    }
    assert(first_index_of(stem@, '_') == Some(i as int)) by {
        let k = choose|k: int|
            0 <= k < stem@.len() && stem@[k] == '_' && forall|j: int| 0 <= j < k ==> stem@[j] != '_';
        if k > i {
            assert(stem@[i as int] != '_');
        }
    }
    Some(i)
}

/// Tells why the stem `stem` of a stored file's name cannot be read, if it
/// cannot.
pub fn find_stem_problem(stem: &str) -> (r: Option<StemProblem>)
    ensures
        r is None <==> stem_is_valid(stem@),
        match first_index_of(stem@, '_') {
            None => r == Some(StemProblem::MissingSeparator),
            Some(i) => parse_u32_spec(stem@.subrange(0, i)) is None ==> r == Some(
                StemProblem::InvalidId,
            ),
        },
{
    match separator(stem) {
        None => Some(StemProblem::MissingSeparator),
        Some(i) => match parse_u32(stem.substring_char(0, i)) {
            None => Some(StemProblem::InvalidId),
            Some(_) => None,
        },
    }
}

/// Reads what the readable stem `stem` and the extension `extension` of a
/// stored file's name say: the part of the stem before its first underscore
/// is the id, the rest is the source, and the extension (`txt` or `bin`)
/// gives the kind; another extension is an error.
pub fn decode_file_name(stem: &str, extension: &str) -> (r: Result<StoredFileName, Error>)
    requires
        stem_is_valid(stem@),
    ensures
        ({
            let i = first_index_of(stem@, '_')->0;
            if extension@ == "txt"@ || extension@ == "bin"@ {
                &&& r is Ok
                &&& r->Ok_0.id == parse_u32_spec(stem@.subrange(0, i))->0
                &&& r->Ok_0.source@ == stem@.subrange(i + 1, stem@.len() as int)
                &&& extension_of(r->Ok_0.kind) == extension@
            } else {
                r matches Err(e) && e.message@ == invalid_extension_message()
            }
        }),
{
    let len = stem.unicode_len();
    let i = separator(stem).unwrap();
    let id = parse_u32(stem.substring_char(0, i)).unwrap();
    let source = stem.substring_char(i + 1, len).to_owned();
    proof {
        reveal_strlit("txt");
        reveal_strlit("bin");
    }
    let txt = "txt".to_owned();
    let bin = "bin".to_owned();
    let ext = extension.to_owned();
    if ext == txt {
        Ok(StoredFileName { id, source, kind: EventKind::Text })
    } else if ext == bin {
        Ok(StoredFileName { id, source, kind: EventKind::Binary })
    } else {
        Err(Error::new("Invalid file extension"))
    }
}

} // verus!
