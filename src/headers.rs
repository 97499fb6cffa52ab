use vstd::prelude::*;
use vstd::string::*;
use vstd::utf8::*;

use crate::text::{
    append_bytes, crlf, ends_with_crlf, find, lemma_find_byte, lemma_find_byte_first, utf8_string, find_byte, is_token, is_token_byte, lemma_line_end, line_end, lower, lower_range,
    trim, trim_ascii_str, trim_bounds, trim_chars, line_too_long, is_ws, is_ws_byte, MAX_LINE_LENGTH,
};

verus! {

/// What a header store holds: each field name (folded to lower case) with its value,
/// in the order in which the names first arrived.
pub type FieldList = Seq<(Seq<u8>, Seq<char>)>;

/// Every name occurs at most once.
pub open spec fn unique_names(m: FieldList) -> bool {
    forall|i: int, j: int| 0 <= i < m.len() && 0 <= j < m.len() && m[i].0 == m[j].0 ==> i == j
}

pub open spec fn has_name(m: FieldList, k: Seq<u8>) -> bool {
    exists|i: int| 0 <= i < m.len() && m[i].0 == k
}

pub open spec fn name_index(m: FieldList, k: Seq<u8>) -> int {
    choose|i: int| 0 <= i < m.len() && m[i].0 == k
}

/// The value stored under `k`, if any.
pub open spec fn lookup(m: FieldList, k: Seq<u8>) -> Option<Seq<char>> {
    if has_name(m, k) {
        Some(m[name_index(m, k)].1)
    } else {
        None
    }
}

/// `m` after field `k: v` arrives: a new name is appended; a known one has `, v`
/// appended to its value.
pub open spec fn add_field(m: FieldList, k: Seq<u8>, v: Seq<char>) -> FieldList {
    if has_name(m, k) {
        let i = name_index(m, k);
        m.update(i, (k, m[i].1 + ", "@ + v))
    } else {
        m.push((k, v))
    }
}

/// `m` after a caller sets `k: v`: a new field stores `v` trimmed, a known one gets
/// `, v` appended as given.
pub open spec fn set_value(m: FieldList, k: Seq<u8>, v: Seq<char>) -> FieldList {
    add_field(
        m,
        k,
        if has_name(m, k) {
            v
        } else {
            trim_chars(v)
        },
    )
}

/// After `k` arrives, `k` is present, and so is every name that was.
pub proof fn lemma_add_field_names(m: FieldList, k: Seq<u8>, v: Seq<char>, other: Seq<u8>)
    ensures
        has_name(add_field(m, k, v), k),
        has_name(m, other) ==> has_name(add_field(m, k, v), other),
{
    let r = add_field(m, k, v);
    if has_name(m, k) {
        let i = name_index(m, k);
        assert(r[i].0 == k);
    } else {
        assert(r[m.len() as int].0 == k);
    }
    if has_name(m, other) {
        let j = choose|j: int| 0 <= j < m.len() && m[j].0 == other;
        if has_name(m, k) && j == name_index(m, k) {
            assert(r[j].0 == other);
        } else {
            assert(r[j].0 == other);
        }
    }
}

/// A field name as written before the colon: it does not end in whitespace, and once
/// surrounding whitespace is removed only token bytes remain.
pub open spec fn valid_field_name(s: Seq<u8>) -> bool {
    &&& !(s.len() > 0 && is_ws(s.last()))
    &&& forall|i: int| 0 <= i < trim(s).len() ==> is_token_byte(#[trigger] trim(s)[i])
}

/// The name and value of the field line `s[pos..cend]` (its CRLF left out).
pub open spec fn field_of_line(s: Seq<u8>, pos: int, cend: int) -> Result<
    (Seq<u8>, Seq<char>),
    HeadersError,
> {
    let colon = find_byte(s, pos, 0x3a);
    if colon >= cend {
        Err(HeadersError::MalformedPart)
    } else {
        let name = s.subrange(pos, colon);
        let value = trim(s.subrange(colon + 1, cend));
        if !valid_field_name(name) {
            Err(HeadersError::MalformedFieldName)
        } else if !valid_utf8(value) {
            Err(HeadersError::ReadError)
        } else {
            Ok((lower(trim(name)), decode_utf8(value)))
        }
    }
}

/// Reads field lines of `s` from `pos` into `m` up to the blank line; on success gives
/// the fields and the position just past the blank line.
pub open spec fn parse_fields(s: Seq<u8>, pos: int, m: FieldList) -> Result<
    (FieldList, int),
    HeadersError,
>
    decreases s.len() - pos,
    via parse_fields_decreases
{
    if pos < 0 || pos >= s.len() {
        Err(HeadersError::ReadError)
    } else {
        let end = line_end(s, pos);
        if end - pos == 2 && s[pos] == 0x0d && s[pos + 1] == 0x0a {
            Ok((m, end))
        } else if line_too_long(s, pos) {
            Err(HeadersError::LineTooLong)
        } else if !ends_with_crlf(s.subrange(pos, end)) {
            Err(HeadersError::MalformedEndOfLine)
        } else {
            match field_of_line(s, pos, end - 2) {
                Err(e) => Err(e),
                Ok(f) => parse_fields(s, end, add_field(m, f.0, f.1)),
            }
        }
    }
}

#[via_fn]
proof fn parse_fields_decreases(s: Seq<u8>, pos: int, m: FieldList) {
    if 0 <= pos < s.len() {
        lemma_line_end(s, pos);
    }
}

/// One stored field as written on the wire: `name: value` and CRLF.
pub open spec fn field_bytes(f: (Seq<u8>, Seq<char>)) -> Seq<u8> {
    f.0 + seq![0x3au8, 0x20u8] + encode_utf8(f.1) + crlf()
}

/// The field lines of `m`, in order.
pub open spec fn fields_bytes(m: FieldList) -> Seq<u8>
    decreases m.len(),
{
    if m.len() == 0 {
        Seq::empty()
    } else {
        fields_bytes(m.drop_last()) + field_bytes(m.last())
    }
}

struct Field {
    name: Vec<u8>,
    value: String,
}

/// A case-insensitive store of header fields; a repeated name joins its values with `, `.
pub struct Headers {
    fields: Vec<Field>,
}

impl View for Headers {
    type V = FieldList;

    closed spec fn view(&self) -> FieldList {
        self.fields@.map_values(|f: Field| (f.name@, f.value@))
    }
}

#[derive(Debug, PartialEq, Eq, Structural)]
pub enum HeadersError {
    LineTooLong,
    MalformedEndOfLine,
    MalformedPart,
    MalformedFieldName,
    ReadError,
}

/// True when `a` and `b` hold the same bytes.
pub fn bytes_eq(a: &[u8], b: &[u8]) -> (r: bool)
    ensures
        r == (a@ == b@),
{
    if a.len() != b.len() {
        return false;
    }
    let mut i: usize = 0;
    while i < a.len()
        invariant
            a@.len() == b@.len(),
            i <= a@.len(),
            forall|j: int| 0 <= j < i ==> a@[j] == b@[j],
        decreases a@.len() - i,
    {
        if a[i] != b[i] {
            return false;
        }
        i = i + 1;
    }
    assert(a@ =~= b@);
    true
}

impl Headers {
    /// The store's invariant: no name occurs twice.
    pub closed spec fn wf(&self) -> bool {
        unique_names(self@)
    }

    pub fn new() -> (r: Self)
        ensures
            r@ == Seq::<(Seq<u8>, Seq<char>)>::empty(),
            r.wf(),
    {
        let r = Headers { fields: Vec::new() };
        assert(r@ =~= Seq::<(Seq<u8>, Seq<char>)>::empty());
        r
    }

    fn index_of(&self, name: &[u8]) -> (r: Option<usize>)
        ensures
            match r {
                Some(i) => i < self@.len() && self@[i as int].0 == name@,
                None => !has_name(self@, name@),
            },
    {
        let mut i: usize = 0;
        while i < self.fields.len()
            invariant
                i <= self.fields@.len(),
                self@.len() == self.fields@.len(),
                forall|j: int| 0 <= j < i ==> self@[j].0 != name@,
            decreases self.fields@.len() - i,
        {
            if bytes_eq(self.fields[i].name.as_slice(), name) {
                return Some(i);
            }
            i = i + 1;
        }
        None
    }

    /// Adds the field `name: value`, joining the value to an existing one of that name.
    fn merge(&mut self, name: Vec<u8>, value: &str)
        requires
            old(self).wf(),
        ensures
            final(self).wf(),
            final(self)@ == add_field(old(self)@, name@, value@),
    {
        match self.index_of(name.as_slice()) {
            Some(i) => {
                let joined = self.fields[i].value.clone().concat(", ").concat(value);
                let ghost before = self@;
                self.fields.set(i, Field { name, value: joined });
                proof {
                    assert(name_index(before, name@) == i as int);
                    assert(self@ =~= add_field(before, name@, value@));
                }
            },
            None => {
                let v = value.to_owned();
                let f = Field { name, value: v };
                self.fields.push(f);
                assert(self@ =~= add_field(old(self)@, f.name@, value@));
            },
        }
    }

    /// Checks a field name as written before the colon.
    pub fn check_field(field: &[u8]) -> (r: Result<(), HeadersError>)
        ensures
            r is Ok <==> valid_field_name(field@),
            r is Err ==> r == Err::<(), HeadersError>(HeadersError::MalformedFieldName),
    {
        if field.len() > 0 && is_ws_byte(field[field.len() - 1]) {
            return Err(HeadersError::MalformedFieldName);
        }
        let (a, b) = trim_bounds(field, 0, field.len());
        assert(field@.subrange(0, field@.len() as int) =~= field@);
        let ghost t = trim(field@);
        let mut i = a;
        while i < b
            invariant
                a <= i <= b <= field@.len(),
                t == field@.subrange(a as int, b as int),
                t == trim(field@),
                forall|j: int| 0 <= j < i - a ==> is_token_byte(#[trigger] t[j]),
            decreases b - i,
        {
            if !is_token(field[i]) {
                assert(t[i - a] == field@[i as int]);
                return Err(HeadersError::MalformedFieldName);
            }
            i = i + 1;
        }
        Ok(())
    }

    /// Sets `name: value` for a name already folded to lower case.
    pub(crate) fn set_folded(&mut self, name: Vec<u8>, value: &str)
        requires
            old(self).wf(),
        ensures
            final(self).wf(),
            final(self)@ == set_value(old(self)@, name@, value@),
    {
        match self.index_of(name.as_slice()) {
            Some(_) => {
                self.merge(name, value);
            },
            None => {
                let t = trim_ascii_str(value);
                self.merge(name, t);
            },
        }
    }

    /// Sets `key: value`. The name is checked as in parsing and folded to lower case;
    /// a new field stores the value trimmed, a known one gets `, value` appended.
    pub fn set(&mut self, key: &str, value: &str) -> (r: Result<(), HeadersError>)
        requires
            old(self).wf(),
        ensures
            final(self).wf(),
            valid_field_name(key.spec_bytes()) ==> r is Ok && final(self)@ == set_value(
                old(self)@,
                lower(trim(key.spec_bytes())),
                value@,
            ),
            !valid_field_name(key.spec_bytes()) ==> r == Err::<(), HeadersError>(
                HeadersError::MalformedFieldName,
            ) && final(self)@ == old(self)@,
    {
        let kb = key.as_bytes();
        match Headers::check_field(kb) {
            Err(e) => {
                return Err(e);
            },
            Ok(()) => {},
        }
        let (a, b) = trim_bounds(kb, 0, kb.len());
        assert(kb@.subrange(0, kb@.len() as int) =~= kb@);
        let name = lower_range(kb, a, b);
        self.set_folded(name, value);
        Ok(())
    }

    /// A copy of the store.
    pub fn duplicate(&self) -> (r: Headers)
        requires
            self.wf(),
        ensures
            r@ == self@,
            r.wf(),
    {
        let mut fields: Vec<Field> = Vec::new();
        let mut i: usize = 0;
        while i < self.fields.len()
            invariant
                i <= self.fields@.len(),
                self@.len() == self.fields@.len(),
                fields@.len() == i,
                forall|j: int|
                    0 <= j < i ==> (#[trigger] fields@[j]).name@ == self.fields@[j].name@
                        && fields@[j].value@ == self.fields@[j].value@,
            decreases self.fields@.len() - i,
        {
            let mut name: Vec<u8> = Vec::new();
            append_bytes(&mut name, self.fields[i].name.as_slice());
            assert(name@ =~= self.fields@[i as int].name@);
            let value = self.fields[i].value.clone();
            fields.push(Field { name, value });
            i = i + 1;
        }
        let r = Headers { fields };
        assert(r@ =~= self@);
        r
    }

    /// The value stored under `key`, compared without regard to ASCII case.
    pub fn get(&self, key: &str) -> (r: Option<&String>)
        requires
            self.wf(),
        ensures
            match lookup(self@, lower(key.spec_bytes())) {
                Some(v) => r matches Some(s) && s@ == v,
                None => r is None,
            },
    {
        let kb = key.as_bytes();
        assert(kb@.subrange(0, kb@.len() as int) =~= kb@);
        let name = lower_range(kb, 0, kb.len());
        match self.index_of(name.as_slice()) {
            Some(i) => {
                proof {
                    assert(self@[i as int].0 == name@);
                    assert(name_index(self@, name@) == i as int);
                }
                Some(&self.fields[i].value)
            },
            None => None,
        }
    }

    /// The value stored under the already folded name `name`.
    pub(crate) fn value_of(&self, name: &[u8]) -> (r: Option<&String>)
        requires
            self.wf(),
        ensures
            match lookup(self@, name@) {
                Some(v) => r matches Some(s) && s@ == v,
                None => r is None,
            },
    {
        match self.index_of(name) {
            Some(i) => {
                proof {
                    assert(name_index(self@, name@) == i as int);
                }
                Some(&self.fields[i].value)
            },
            None => None,
        }
    }

    /// Reads a header block from `buf` starting at `start`; on success also gives the
    /// position just past the blank line that ends it.
    pub fn parse_from(buf: &[u8], start: usize) -> (r: Result<(Headers, usize), HeadersError>)
        ensures
            match parse_fields(buf@, start as int, Seq::empty()) {
                Ok(p) => r matches Ok(q) && q.0@ == p.0 && q.1 == p.1 && q.0.wf() && q.1
                    <= buf@.len(),
                Err(e) => r matches Err(x) && x == e,
            },
    {
        let ghost s = buf@;
        let mut h = Headers::new();
        let mut pos = start;
        loop
            invariant
                s == buf@,
                h.wf(),
                parse_fields(s, start as int, Seq::empty()) == parse_fields(s, pos as int, h@),
            decreases s.len() - pos,
        {
            if pos >= buf.len() {
                return Err(HeadersError::ReadError);
            }
            proof {
                lemma_line_end(s, pos as int);
            }
            let nl = find(buf, pos, 0x0a);
            let end = if nl < buf.len() {
                nl + 1
            } else {
                buf.len()
            };
            if end - pos == 2 && buf[pos] == 0x0d && buf[pos + 1] == 0x0a {
                return Ok((h, end));
            }
            proof {
                let l = s.subrange(pos as int, end as int);
                if l.len() >= 2 {
                    assert(l[l.len() - 2] == s[end - 2]);
                    assert(l[l.len() - 1] == s[end - 1]);
                }
            }
            proof {
                lemma_find_byte(s, pos as int, 0x0a);
            }
            if nl - pos >= MAX_LINE_LENGTH && buf.len() - pos >= MAX_LINE_LENGTH {
                return Err(HeadersError::LineTooLong);
            }
            if !(end - pos >= 2 && buf[end - 2] == 0x0d && buf[end - 1] == 0x0a) {
                return Err(HeadersError::MalformedEndOfLine);
            }
            let cend = end - 2;
            let colon = find(buf, pos, 0x3a);
            proof {
                lemma_find_byte(s, pos as int, 0x3a);
            }
            if colon >= cend {
                return Err(HeadersError::MalformedPart);
            }
            if Headers::check_field(&buf[pos..colon]).is_err() {
                return Err(HeadersError::MalformedFieldName);
            }
            let (na, nb) = trim_bounds(buf, pos, colon);
            let name = lower_range(buf, na, nb);
            let (va, vb) = trim_bounds(buf, colon + 1, cend);
            let mut value_bytes: Vec<u8> = Vec::new();
            append_bytes(&mut value_bytes, &buf[va..vb]);
            assert(value_bytes@ =~= trim(s.subrange(colon + 1, cend as int)));
            match utf8_string(value_bytes) {
                None => {
                    return Err(HeadersError::ReadError);
                },
                Some(v) => {
                    h.merge(name, v.as_str());
                },
            }
            pos = end;
        }
    }

    /// Reads a header block from the start of `buf`, up to and including its blank line.
    pub fn parse(buf: &[u8]) -> (r: Result<Headers, HeadersError>)
        ensures
            match parse_fields(buf@, 0, Seq::empty()) {
                Ok(p) => r matches Ok(h) && h@ == p.0 && h.wf(),
                Err(e) => r matches Err(x) && x == e,
            },
    {
        match Headers::parse_from(buf, 0) {
            Ok((h, _)) => Ok(h),
            Err(e) => Err(e),
        }
    }

    /// The store on the wire: one `name: value` line per field, then a blank line.
    pub fn to_bytes(&self) -> (r: Vec<u8>)
        ensures
            r@ == fields_bytes(self@) + crlf(),
    {
        let mut out: Vec<u8> = Vec::new();
        let mut i: usize = 0;
        while i < self.fields.len()
            invariant
                i <= self.fields@.len(),
                self@.len() == self.fields@.len(),
                out@ == fields_bytes(self@.subrange(0, i as int)),
            decreases self.fields@.len() - i,
        {
            let f = &self.fields[i];
            append_bytes(&mut out, f.name.as_slice());
            out.push(0x3a);
            out.push(0x20);
            append_bytes(&mut out, f.value.as_str().as_bytes());
            out.push(0x0d);
            out.push(0x0a);
            proof {
                let next = self@.subrange(0, i + 1);
                assert(next.drop_last() =~= self@.subrange(0, i as int));
                assert(out@ =~= fields_bytes(next));
            }
            i = i + 1;
        }
        assert(self@.subrange(0, i as int) =~= self@);
        out.push(0x0d);
        out.push(0x0a);
        assert(out@ =~= fields_bytes(self@) + crlf());
        out
    }
}

/// The field line `name:value` and CRLF.
pub open spec fn field_line(f: (Seq<u8>, Seq<u8>)) -> Seq<u8> {
    f.0 + seq![0x3au8] + f.1 + crlf()
}

/// A header block: its field lines in order, then the blank line.
pub open spec fn header_block(lines: Seq<(Seq<u8>, Seq<u8>)>) -> Seq<u8>
    decreases lines.len(),
{
    if lines.len() == 0 {
        crlf()
    } else {
        field_line(lines[0]) + header_block(lines.subrange(1, lines.len() as int))
    }
}

/// A field line that is read as written: a valid name holding no colon or line feed, a
/// value holding no line feed whose trimmed bytes are UTF-8, and within the line limit.
pub open spec fn sound_line(f: (Seq<u8>, Seq<u8>)) -> bool {
    &&& forall|i: int| 0 <= i < f.0.len() ==> #[trigger] f.0[i] != 0x3a && f.0[i] != 0x0a
    &&& forall|i: int| 0 <= i < f.1.len() ==> #[trigger] f.1[i] != 0x0a
    &&& valid_field_name(f.0)
    &&& valid_utf8(trim(f.1))
    &&& field_line(f).len() <= MAX_LINE_LENGTH
}

/// `m` after the fields of `lines` arrive in order: each name folded to lower case, each
/// value trimmed, repeated names joined.
pub open spec fn fold_lines(m: FieldList, lines: Seq<(Seq<u8>, Seq<u8>)>) -> FieldList
    decreases lines.len(),
{
    if lines.len() == 0 {
        m
    } else {
        fold_lines(
            add_field(m, lower(trim(lines[0].0)), decode_utf8(trim(lines[0].1))),
            lines.subrange(1, lines.len() as int),
        )
    }
}

proof fn lemma_block_at(s: Seq<u8>, pos: int, lines: Seq<(Seq<u8>, Seq<u8>)>, m: FieldList)
    requires
        0 <= pos,
        pos + header_block(lines).len() <= s.len(),
        s.subrange(pos, pos + header_block(lines).len()) == header_block(lines),
        forall|i: int| 0 <= i < lines.len() ==> sound_line(#[trigger] lines[i]),
    ensures
        parse_fields(s, pos, m) == Ok::<(FieldList, int), HeadersError>(
            (fold_lines(m, lines), pos + header_block(lines).len()),
        ),
    decreases lines.len(),
{
    let hb = header_block(lines);
    assert(s[pos] == hb[0]);
    if lines.len() == 0 {
        assert(s[pos + 1] == hb[1]);
        lemma_find_byte_first(s, pos, pos + 1, 0x0a);
    } else {
        let f = lines[0];
        let fl = field_line(f);
        let tail = lines.subrange(1, lines.len() as int);
        let l = fl.len() as int;
        let n = f.0.len() as int;
        assert(sound_line(f));
        assert forall|j: int| 0 <= j < l implies s[pos + j] == #[trigger] fl[j] by {
            assert(s.subrange(pos, pos + hb.len())[j] == hb[j]);
        }
        assert(s.subrange(pos + l, pos + l + header_block(tail).len()) =~= header_block(tail)) by {
            assert forall|j: int| 0 <= j < header_block(tail).len() implies s.subrange(
                pos + l,
                pos + l + header_block(tail).len(),
            )[j] == #[trigger] header_block(tail)[j] by {
                assert(s.subrange(pos, pos + hb.len())[l + j] == hb[l + j]);
            }
        }
        assert forall|j: int| pos <= j < pos + l - 1 implies s[j] != 0x0a by {
            assert(s[j] == fl[j - pos]);
            if j - pos < n {
                assert(fl[j - pos] == f.0[j - pos]);
            } else if j - pos > n && j - pos < l - 2 {
                assert(fl[j - pos] == f.1[j - pos - n - 1]);
            }
        }
        assert(s[pos + l - 1] == fl[l - 1]);
        lemma_find_byte_first(s, pos, pos + l - 1, 0x0a);
        assert(line_end(s, pos) == pos + l);
        assert forall|j: int| pos <= j < pos + n implies s[j] != 0x3a by {
            assert(s[j] == fl[j - pos]);
            assert(fl[j - pos] == f.0[j - pos]);
        }
        assert(s[pos + n] == fl[n]);
        lemma_find_byte_first(s, pos, pos + n, 0x3a);
        assert(s.subrange(pos, pos + n) =~= f.0) by {
            assert forall|j: int| 0 <= j < n implies s.subrange(pos, pos + n)[j] == f.0[j] by {
                assert(s[pos + j] == fl[j]);
            }
        }
        assert(s.subrange(pos + n + 1, pos + l - 2) =~= f.1) by {
            assert forall|j: int| 0 <= j < f.1.len() implies s.subrange(
                pos + n + 1,
                pos + l - 2,
            )[j] == f.1[j] by {
                assert(s[pos + n + 1 + j] == fl[n + 1 + j]);
            }
        }
        assert(s.subrange(pos, pos + l) =~= fl) by {
            assert forall|j: int| 0 <= j < l implies s.subrange(pos, pos + l)[j] == fl[j] by {
                assert(s[pos + j] == fl[j]);
            }
        }
        assert(s[pos + l - 2] == fl[l - 2]);
        assert forall|i: int| 0 <= i < tail.len() implies sound_line(#[trigger] tail[i]) by {
            assert(tail[i] == lines[i + 1]);
        }
        lemma_block_at(
            s,
            pos + l,
            tail,
            add_field(m, lower(trim(f.0)), decode_utf8(trim(f.1))),
        );
    }
}

/// Reading a header block gives its fields in arrival order: every name folded to lower
/// case, every value trimmed, and the values of a repeated name joined as
/// `first, second, third`; reading stops just past the blank line, whatever follows.
pub proof fn lemma_header_block(lines: Seq<(Seq<u8>, Seq<u8>)>, rest: Seq<u8>)
    requires
        forall|i: int| 0 <= i < lines.len() ==> sound_line(#[trigger] lines[i]),
    ensures
        parse_fields(header_block(lines) + rest, 0, Seq::empty()) == Ok::<
            (FieldList, int),
            HeadersError,
        >((fold_lines(Seq::empty(), lines), header_block(lines).len() as int)),
{
    let s = header_block(lines) + rest;
    assert(s.subrange(0, header_block(lines).len() as int) =~= header_block(lines));
    lemma_block_at(s, 0, lines, Seq::empty());
}

/// A field line within the line limit whose name ends in a space before the colon fails
/// with `MalformedFieldName`, whatever its value.
pub proof fn lemma_space_before_colon(s: Seq<u8>, pos: int, m: FieldList)
    requires
        0 <= pos < s.len(),
        ends_with_crlf(s.subrange(pos, line_end(s, pos))),
        line_end(s, pos) - pos <= MAX_LINE_LENGTH,
        pos < find_byte(s, pos, 0x3a) < line_end(s, pos) - 2,
        s[find_byte(s, pos, 0x3a) - 1] == 0x20,
    ensures
        parse_fields(s, pos, m) == Err::<(FieldList, int), HeadersError>(
            HeadersError::MalformedFieldName,
        ),
{
    let colon = find_byte(s, pos, 0x3a);
    lemma_find_byte(s, pos, 0x0a);
    assert(s.subrange(pos, colon).last() == s[colon - 1]);
}

} // verus!
