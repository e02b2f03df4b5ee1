//! The header block that core metadata is written in: fields of a name, a
//! colon and a value, one on a line, up to the first empty line.

use vstd::prelude::*;
use crate::package_name::lower;
use vstd::string::StringExecFns;
use crate::text::{chars_of, copy_range, string_of};

verus! {

/// One field of a header block.
#[derive(Debug)]
pub struct HeaderField {
    pub name: String,
    pub value: String,
}

/// The mathematical value of a [`HeaderField`].
pub struct FieldData {
    pub name: Seq<char>,
    pub value: Seq<char>,
}

impl HeaderField {
    pub open spec fn view(&self) -> FieldData {
        FieldData { name: self.name@, value: self.value@ }
    }
}

/// The values of a list of fields.
pub open spec fn field_values(v: Seq<HeaderField>) -> Seq<FieldData> {
    Seq::new(v.len(), |i: int| v[i]@)
}

/// The number of characters from place `i` to the end of the line.
pub open spec fn line_len(s: Seq<char>, i: int) -> nat
    decreases s.len() - i,
{
    if 0 <= i < s.len() && s[i] != '\n' {
        1 + line_len(s, i + 1)
    } else {
        0
    }
}

/// Whether `c` is a space or a tab.
pub open spec fn is_blank(c: char) -> bool {
    c == ' ' || c == '\t'
}

/// The number of spaces and tabs from place `i` on.
pub open spec fn blank_len(s: Seq<char>, i: int) -> nat
    decreases s.len() - i,
{
    if 0 <= i < s.len() && is_blank(s[i]) {
        1 + blank_len(s, i + 1)
    } else {
        0
    }
}

/// The number of characters from place `i` to the first colon.
pub open spec fn name_len(s: Seq<char>, i: int) -> nat
    decreases s.len() - i,
{
    if 0 <= i < s.len() && s[i] != ':' {
        1 + name_len(s, i + 1)
    } else {
        0
    }
}

/// The line without the carriage return that it may end with.
pub open spec fn without_cr(line: Seq<char>) -> Seq<char> {
    if line.len() > 0 && line.last() == '\r' {
        line.drop_last()
    } else {
        line
    }
}

/// The line without the spaces and tabs that it starts with.
pub open spec fn trim_start(line: Seq<char>) -> Seq<char> {
    line.subrange(blank_len(line, 0) as int, line.len() as int)
}

/// The fields once `line` is read after them. A line that starts with a
/// space or a tab goes on with the value of the last field, joined to it by
/// a space; any other line is a name, a colon and a value. Nothing where
/// the line is neither.
pub open spec fn with_line(fields: Seq<FieldData>, line: Seq<char>) -> Option<Seq<FieldData>> {
    if line.len() > 0 && is_blank(line[0]) {
        if fields.len() == 0 {
            None
        } else {
            Some(
                fields.drop_last().push(
                    FieldData {
                        name: fields.last().name,
                        value: fields.last().value + seq![' '] + trim_start(line),
                    },
                ),
            )
        }
    } else {
        let c = name_len(line, 0) as int;
        if c >= line.len() {
            None
        } else {
            Some(
                fields.push(
                    FieldData {
                        name: line.subrange(0, c),
                        value: trim_start(line.subrange(c + 1, line.len() as int)),
                    },
                ),
            )
        }
    }
}

/// The line that starts at place `i`, without its end.
pub open spec fn line_at(s: Seq<char>, i: int) -> Seq<char> {
    without_cr(s.subrange(i, i + line_len(s, i)))
}

/// The fields of the block that starts at place `i`, after `fields`: line
/// by line up to the first empty line or the end of the text.
pub open spec fn fields_from(s: Seq<char>, i: int, fields: Seq<FieldData>) -> Option<Seq<FieldData>>
    decreases s.len() - i,
{
    if i < 0 || i >= s.len() {
        Some(fields)
    } else if line_at(s, i).len() == 0 {
        Some(fields)
    } else if with_line(fields, line_at(s, i)) is None || i + line_len(s, i) >= s.len() {
        with_line(fields, line_at(s, i))
    } else {
        fields_from(s, i + line_len(s, i) + 1, with_line(fields, line_at(s, i))->0)
    }
}

/// The fields of a header block, in order; nothing where a line of the
/// block is no field and goes on with none.
pub open spec fn header_fields(s: Seq<char>) -> Option<Seq<FieldData>> {
    fields_from(s, 0, Seq::empty())
}

/// `s` with its ASCII letters in lower case.
pub open spec fn lower_text(s: Seq<char>) -> Seq<char> {
    Seq::new(s.len(), |i: int| lower(s[i]))
}

/// Whether two names of fields are the same, whatever the case of their
/// ASCII letters.
pub open spec fn same_name(a: Seq<char>, b: Seq<char>) -> bool {
    lower_text(a) == lower_text(b)
}

/// The places of the fields with the name `key`, in order.
pub open spec fn places_of(fields: Seq<FieldData>, key: Seq<char>) -> Seq<int>
    decreases fields.len(),
{
    if fields.len() == 0 {
        Seq::empty()
    } else if same_name(fields.last().name, key) {
        places_of(fields.drop_last(), key).push(fields.len() - 1)
    } else {
        places_of(fields.drop_last(), key)
    }
}

/// The values of the fields with the name `key`, in order.
pub open spec fn values_of(fields: Seq<FieldData>, key: Seq<char>) -> Seq<Seq<char>>
    decreases fields.len(),
{
    if fields.len() == 0 {
        Seq::empty()
    } else if same_name(fields.last().name, key) {
        values_of(fields.drop_last(), key).push(fields.last().value)
    } else {
        values_of(fields.drop_last(), key)
    }
}

fn line_end(s: &Vec<char>, i: usize) -> (r: usize)
    requires
        i <= s.len(),
    ensures
        r == i + line_len(s@, i as int),
        i <= r <= s.len(),
{
    let mut j: usize = i;
    while j < s.len() && s[j] != '\n'
        invariant
            i <= j <= s.len(),
            i + line_len(s@, i as int) == j + line_len(s@, j as int),
        decreases s.len() - j,
    {
        j += 1;
    }
    j
}

/// The place of the first character of `s[from..to]` at or after `from`
/// that is no space or tab.
fn skip_blanks(s: &Vec<char>, from: usize, to: usize) -> (r: usize)
    requires
        from <= to <= s.len(),
    ensures
        r == from + blank_len(s@.subrange(from as int, to as int), 0),
        from <= r <= to,
{
    let ghost line = s@.subrange(from as int, to as int);
    let mut j: usize = from;
    while j < to && (s[j] == ' ' || s[j] == '\t')
        invariant
            from <= j <= to <= s.len(),
            line == s@.subrange(from as int, to as int),
            blank_len(line, 0) == (j - from) + blank_len(line, j - from),
        decreases to - j,
    {
        assert(line[j - from] == s@[j as int]);
        j += 1;
    }
    proof {
        if j < to {
            assert(line[j - from] == s@[j as int]);
        }
    }
    j
}

/// The place of the first colon of `s[from..to]`, or `to`.
fn find_colon(s: &Vec<char>, from: usize, to: usize) -> (r: usize)
    requires
        from <= to <= s.len(),
    ensures
        r == from + name_len(s@.subrange(from as int, to as int), 0),
        from <= r <= to,
{
    let ghost line = s@.subrange(from as int, to as int);
    let mut j: usize = from;
    while j < to && s[j] != ':'
        invariant
            from <= j <= to <= s.len(),
            line == s@.subrange(from as int, to as int),
            name_len(line, 0) == (j - from) + name_len(line, j - from),
        decreases to - j,
    {
        assert(line[j - from] == s@[j as int]);
        j += 1;
    }
    proof {
        if j < to {
            assert(line[j - from] == s@[j as int]);
        }
    }
    j
}

/// The error of a header block with a line that is no field and goes on
/// with none.
#[derive(Debug, PartialEq, Eq, Structural)]
pub struct MalformedHeader;

struct RawField {
    name: Vec<char>,
    value: Vec<char>,
}

impl RawField {
    spec fn view(&self) -> FieldData {
        FieldData { name: self.name@, value: self.value@ }
    }
}

spec fn raw_values(v: Seq<RawField>) -> Seq<FieldData> {
    Seq::new(v.len(), |i: int| v[i]@)
}

/// Reads the line `s[from..to]` after `fields`.
fn read_line(fields: &mut Vec<RawField>, s: &Vec<char>, from: usize, to: usize) -> (ok: bool)
    requires
        from < to <= s.len(),
    ensures
        match with_line(raw_values(old(fields)@), s@.subrange(from as int, to as int)) {
            Some(next) => ok && raw_values(final(fields)@) == next,
            None => !ok,
        },
{
    let ghost line = s@.subrange(from as int, to as int);
    let ghost before = raw_values(fields@);
    assert(line[0] == s@[from as int]);
    if s[from] == ' ' || s[from] == '\t' {
        if fields.len() == 0 {
            return false;
        }
        let start = skip_blanks(s, from, to);
        let last = fields.len() - 1;
        fields[last].value.push(' ');
        let mut i: usize = start;
        while i < to
            invariant
                start <= i <= to <= s.len(),
                fields@.len() == last + 1,
                raw_values(fields@).drop_last() == before.drop_last(),
                fields@[last as int].name@ == before.last().name,
                fields@[last as int].value@ == before.last().value + seq![' '] + s@.subrange(
                    start as int,
                    i as int,
                ),
            decreases to - i,
        {
            fields[last].value.push(s[i]);
            proof {
                assert(s@.subrange(start as int, i + 1) =~= s@.subrange(start as int, i as int).push(
                    s@[i as int],
                ));
                assert(raw_values(fields@).drop_last() =~= before.drop_last());
            }
            i += 1;
        }
        proof {
            assert(trim_start(line) =~= s@.subrange(start as int, to as int));
            assert(raw_values(fields@) =~= before.drop_last().push(
                FieldData {
                    name: before.last().name,
                    value: before.last().value + seq![' '] + trim_start(line),
                },
            ));
        }
        true
    } else {
        let colon = find_colon(s, from, to);
        if colon >= to {
            return false;
        }
        let start = skip_blanks(s, colon + 1, to);
        let name = copy_range(s, from, colon);
        let value = copy_range(s, start, to);
        fields.push(RawField { name, value });
        proof {
            let c = colon - from;
            assert(line.subrange(0, c) =~= s@.subrange(from as int, colon as int));
            let rest = line.subrange(c + 1, line.len() as int);
            assert(rest =~= s@.subrange(colon + 1, to as int));
            assert(trim_start(rest) =~= s@.subrange(start as int, to as int));
            assert(raw_values(fields@) =~= before.push(
                FieldData { name: line.subrange(0, c), value: trim_start(rest) },
            ));
        }
        true
    }
}

/// Reads the fields of the header block that `text` starts with.
pub fn parse_header(text: &str) -> (r: Result<Vec<HeaderField>, MalformedHeader>)
    ensures
        match header_fields(text@) {
            Some(fields) => r matches Ok(v) && field_values(v@) == fields,
            None => r is Err,
        },
{
    let s = chars_of(text);
    let mut raw: Vec<RawField> = Vec::new();
    let mut i: usize = 0;
    assert(raw_values(raw@) =~= Seq::<FieldData>::empty());
    while i < s.len()
        invariant
            i <= s.len(),
            s@ == text@,
            header_fields(s@) == fields_from(s@, i as int, raw_values(raw@)),
        decreases s.len() - i,
    {
        let e = line_end(&s, i);
        let mut end = e;
        if end > i && s[end - 1] == '\r' {
            end = end - 1;
        }
        proof {
            let whole = s@.subrange(i as int, e as int);
            if whole.len() > 0 {
                assert(whole.last() == s@[e - 1]);
            }
            assert(line_at(s@, i as int) =~= s@.subrange(i as int, end as int));
        }
        if end == i {
            i = s.len();
        } else if !read_line(&mut raw, &s, i, end) {
            return Err(MalformedHeader);
        } else if e == s.len() {
            i = e;
        } else {
            i = e + 1;
        }
    }
    let mut out: Vec<HeaderField> = Vec::new();
    let mut k: usize = 0;
    while k < raw.len()
        invariant
            k <= raw.len(),
            out@.len() == k,
            forall|j: int| 0 <= j < k ==> out@[j]@ == raw@[j]@,
        decreases raw.len() - k,
    {
        out.push(HeaderField { name: string_of(&raw[k].name), value: string_of(&raw[k].value) });
        k += 1;
    }
    assert(field_values(out@) =~= raw_values(raw@));
    Ok(out)
}

fn lower_ascii(c: char) -> (r: char)
    ensures
        r == lower(c),
{
    if c >= 'A' && c <= 'Z' {
        let u: u8 = c as u8;
        (u + 32) as char
    } else {
        c
    }
}

/// Whether `name` is `key`, whatever the case of the ASCII letters.
pub fn is_named(name: &str, key: &str) -> (r: bool)
    ensures
        r == same_name(name@, key@),
{
    let a = chars_of(name);
    let b = chars_of(key);
    if a.len() != b.len() {
        assert(lower_text(a@).len() != lower_text(b@).len());
        return false;
    }
    let mut i: usize = 0;
    while i < a.len()
        invariant
            i <= a.len(),
            a.len() == b.len(),
            a@ == name@,
            b@ == key@,
            forall|j: int| 0 <= j < i ==> lower(a@[j]) == lower(b@[j]),
        decreases a.len() - i,
    {
        if lower_ascii(a[i]) != lower_ascii(b[i]) {
            assert(lower_text(a@)[i as int] != lower_text(b@)[i as int]);
            return false;
        }
        i += 1;
    }
    assert(lower_text(a@) =~= lower_text(b@));
    true
}

/// The places of the fields with the name `key`, in order.
pub fn find_fields(fields: &Vec<HeaderField>, key: &str) -> (r: Vec<usize>)
    ensures
        Seq::new(r@.len(), |k: int| r@[k] as int) == places_of(field_values(fields@), key@),
        r@.len() == values_of(field_values(fields@), key@).len(),
        forall|k: int|
            0 <= k < r@.len() ==> (#[trigger] r@[k]) < fields@.len() && fields@[r@[k] as int].value@
                == values_of(field_values(fields@), key@)[k],
{
    let ghost all = field_values(fields@);
    let mut out: Vec<usize> = Vec::new();
    let mut i: usize = 0;
    assert(all.take(0) =~= Seq::<FieldData>::empty());
    while i < fields.len()
        invariant
            i <= fields.len(),
            all == field_values(fields@),
            Seq::new(out@.len(), |k: int| out@[k] as int) =~= places_of(all.take(i as int), key@),
            out@.len() == values_of(all.take(i as int), key@).len(),
            forall|k: int|
                0 <= k < out@.len() ==> (#[trigger] out@[k]) < i && fields@[out@[k] as int].value@
                    == values_of(all.take(i as int), key@)[k],
        decreases fields.len() - i,
    {
        proof {
            assert(all.take(i + 1).drop_last() =~= all.take(i as int));
            assert(all.take(i + 1).last() == fields@[i as int]@);
        }
        if is_named(fields[i].name.as_str(), key) {
            out.push(i);
        }
        i += 1;
    }
    proof {
        assert(all.take(fields.len() as int) =~= all);
    }
    out
}


/// The line that a field is written as: the name, a colon, a space, the
/// value and the end of the line.
pub open spec fn field_line(f: FieldData) -> Seq<char> {
    f.name + seq![':', ' '] + f.value + seq!['\n']
}

/// The header block that fields are written as: the line of each, in order.
pub open spec fn encoded_fields(fields: Seq<FieldData>) -> Seq<char>
    decreases fields.len(),
{
    if fields.len() == 0 {
        Seq::empty()
    } else {
        field_line(fields[0]) + encoded_fields(fields.drop_first())
    }
}

/// Whether a field can be written on a line and read back: its name holds
/// no colon and no end of line and does not start with a space or a tab;
/// its value holds no end of line, does not start with a space or a tab
/// and does not end with a carriage return.
pub open spec fn field_wf(f: FieldData) -> bool {
    &&& forall|i: int| 0 <= i < f.name.len() ==> f.name[i] != ':' && f.name[i] != '\n'
    &&& f.name.len() > 0 ==> !is_blank(f.name[0])
    &&& forall|i: int| 0 <= i < f.value.len() ==> f.value[i] != '\n'
    &&& f.value.len() > 0 ==> !is_blank(f.value[0]) && f.value.last() != '\r'
}

proof fn lemma_line_len_of(s: Seq<char>, start: int, end: int, j: int)
    requires
        0 <= start <= j <= end < s.len(),
        forall|k: int| start <= k < end ==> s[k] != '\n',
        s[end] == '\n',
    ensures
        line_len(s, j) == end - j,
    decreases end - j,
{
    if j < end {
        lemma_line_len_of(s, start, end, j + 1);
    }
}

proof fn lemma_name_len_of(line: Seq<char>, end: int, j: int)
    requires
        0 <= j <= end < line.len(),
        forall|k: int| 0 <= k < end ==> line[k] != ':',
        line[end] == ':',
    ensures
        name_len(line, j) == end - j,
    decreases end - j,
{
    if j < end {
        lemma_name_len_of(line, end, j + 1);
    }
}

/// To read the line of a well-formed field after other fields adds the
/// field to them.
proof fn lemma_with_line(acc: Seq<FieldData>, f: FieldData)
    requires
        field_wf(f),
    ensures
        with_line(acc, f.name + seq![':', ' '] + f.value) == Some(acc.push(f)),
        (f.name + seq![':', ' '] + f.value).len() > 0,
        without_cr(f.name + seq![':', ' '] + f.value) == f.name + seq![':', ' '] + f.value,
{
    let line = f.name + seq![':', ' '] + f.value;
    let c = f.name.len() as int;
    assert(line[c] == ':');
    assert(line[c + 1] == ' ');
    assert forall|k: int| 0 <= k < c implies line[k] != ':' by {
        assert(line[k] == f.name[k]);
    }
    lemma_name_len_of(line, c, 0);
    if c > 0 {
        assert(line[0] == f.name[0]);
    }
    let rest = line.subrange(c + 1, line.len() as int);
    assert(rest =~= seq![' '] + f.value);
    assert(rest[0] == ' ');
    if f.value.len() > 0 {
        assert(rest[1] == f.value[0]);
        assert(line.last() == f.value.last());
    }
    assert(blank_len(rest, 1) == 0);
    assert(blank_len(rest, 0) == 1);
    assert(trim_start(rest) =~= f.value);
    assert(line.subrange(0, c) =~= f.name);
}

proof fn lemma_fields_from_encoded(prefix: Seq<char>, acc: Seq<FieldData>, fields: Seq<FieldData>)
    requires
        forall|i: int| 0 <= i < fields.len() ==> field_wf(#[trigger] fields[i]),
    ensures
        fields_from(prefix + encoded_fields(fields), prefix.len() as int, acc) == Some(acc + fields),
    decreases fields.len(),
{
    let s = prefix + encoded_fields(fields);
    let i = prefix.len() as int;
    if fields.len() == 0 {
        assert(acc + fields =~= acc);
    } else {
        let f = fields[0];
        let rest = fields.drop_first();
        let content = f.name + seq![':', ' '] + f.value;
        let line = field_line(f);
        assert(line =~= content + seq!['\n']);
        let end = i + content.len();
        assert(s =~= prefix + line + encoded_fields(rest));
        assert(s[end] == '\n');
        assert forall|k: int| i <= k < end implies s[k] != '\n' by {
            assert(s[k] == content[k - i]);
            if k - i < f.name.len() {
                assert(content[k - i] == f.name[k - i]);
            } else if k - i >= f.name.len() + 2 {
                assert(content[k - i] == f.value[k - i - f.name.len() - 2]);
            }
        }
        lemma_line_len_of(s, i, end, i);
        assert(s.subrange(i, end) =~= content);
        lemma_with_line(acc, f);
        assert(line_at(s, i) == content);
        assert forall|k: int| 0 <= k < rest.len() implies field_wf(#[trigger] rest[k]) by {
            assert(rest[k] == fields[k + 1]);
        }
        lemma_fields_from_encoded(prefix + line, acc.push(f), rest);
        assert(acc.push(f) + rest =~= acc + fields);
        if end + 1 >= s.len() {
            assert(encoded_fields(rest).len() == 0);
            if rest.len() > 0 {
                assert(field_line(rest[0]).len() > 0);
            }
            assert(acc.push(f) =~= acc + fields);
        }
    }
}

/// To read the header block that well-formed fields are written as gives
/// the fields back.
pub proof fn lemma_header_round_trip(fields: Seq<FieldData>)
    requires
        forall|i: int| 0 <= i < fields.len() ==> field_wf(#[trigger] fields[i]),
    ensures
        header_fields(encoded_fields(fields)) == Some(fields),
{
    lemma_fields_from_encoded(Seq::empty(), Seq::empty(), fields);
    assert(Seq::<char>::empty() + encoded_fields(fields) =~= encoded_fields(fields));
    assert(Seq::<FieldData>::empty() + fields =~= fields);
}

/// Writes fields as a header block.
pub fn encode_header(fields: &Vec<HeaderField>) -> (r: String)
    ensures
        r@ == encoded_fields(field_values(fields@)),
{
    let ghost all = field_values(fields@);
    let mut out = String::new();
    let mut k: usize = 0;
    assert(all.skip(0) =~= all);
    assert(out@ + encoded_fields(all) =~= encoded_fields(all));
    proof {
        reveal_strlit(": ");
        reveal_strlit("\n");
    }
    while k < fields.len()
        invariant
            k <= fields.len(),
            all == field_values(fields@),
            ": "@ == seq![':', ' '],
            "\n"@ == seq!['\n'],
            out@ + encoded_fields(all.skip(k as int)) == encoded_fields(all),
        decreases fields.len() - k,
    {
        let ghost before = out@;
        out.append(fields[k].name.as_str());
        out.append(": ");
        out.append(fields[k].value.as_str());
        out.append("\n");
        proof {
            let rest = all.skip(k as int);
            assert(rest[0] == fields@[k as int]@);
            assert(rest.drop_first() =~= all.skip(k + 1));
            assert(out@ =~= before + field_line(rest[0]));
            assert(out@ + encoded_fields(all.skip(k + 1)) =~= before + encoded_fields(rest));
        }
        k += 1;
    }
    proof {
        assert(all.skip(fields.len() as int) =~= Seq::<FieldData>::empty());
        assert(out@ + Seq::<char>::empty() =~= out@);
    }
    out
}

} // verus!
