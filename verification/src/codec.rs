//! The payload wire format: a JSON object whose `type` key names the
//! registered job tag and whose remaining keys are that job's fields.
//! The encoder renders the canonical form; the decoder accepts exactly
//! that form and is proved to invert the encoder.

use vstd::prelude::*;

use crate::text::push_char;

verus! {

/// A payload record: the job's type tag and its fields, each a key and a
/// textual value.
pub struct Payload {
    pub tag: String,
    pub fields: Vec<(String, String)>,
}

/// The mathematical shape of a payload: sequences of characters.
pub struct PayloadModel {
    pub tag: Seq<char>,
    pub fields: Seq<(Seq<char>, Seq<char>)>,
}

impl View for Payload {
    type V = PayloadModel;

    open spec fn view(&self) -> PayloadModel {
        PayloadModel {
            tag: self.tag@,
            fields: Seq::new(self.fields@.len(), |i: int| (self.fields@[i].0@, self.fields@[i].1@)),
        }
    }
}

/// How one character is written inside a JSON string: quote, backslash
/// and the common control characters get a two-character escape,
/// everything else stands as itself.
pub open spec fn esc_char(c: char) -> Seq<char> {
    if c == '"' {
        seq!['\\', '"']
    } else if c == '\\' {
        seq!['\\', '\\']
    } else if c == '\n' {
        seq!['\\', 'n']
    } else if c == '\r' {
        seq!['\\', 'r']
    } else if c == '\t' {
        seq!['\\', 't']
    } else {
        seq![c]
    }
}

/// A whole string, escaped character by character.
pub open spec fn esc(s: Seq<char>) -> Seq<char>
    decreases s.len(),
{
    if s.len() == 0 {
        Seq::empty()
    } else {
        esc_char(s[0]) + esc(s.drop_first())
    }
}

/// Escaping one more character extends the escaped text.
pub proof fn lemma_esc_push(s: Seq<char>, c: char)
    ensures
        esc(s.push(c)) == esc(s) + esc_char(c),
    decreases s.len(),
{
    if s.len() == 0 {
        assert(s.push(c) =~= seq![c]);
        assert(seq![c].drop_first() =~= Seq::<char>::empty());
        assert(esc(seq![c]) == esc_char(c) + esc(Seq::<char>::empty()));
        assert(esc(Seq::<char>::empty()) =~= Seq::<char>::empty());
        assert(esc_char(c) + Seq::<char>::empty() =~= esc_char(c));
        assert(esc(s) + esc_char(c) =~= esc_char(c));
        assert(esc(s.push(c)) =~= esc(s) + esc_char(c));
    } else {
        assert(s.push(c).drop_first() =~= s.drop_first().push(c));
        lemma_esc_push(s.drop_first(), c);
        assert(esc(s.push(c)) =~= esc(s) + esc_char(c));
    }
}

/// The opening of every payload object, up to and including the quote
/// that starts the tag.
pub open spec fn payload_header() -> Seq<char> {
    seq!['{', '"', 't', 'y', 'p', 'e', '"', ':', '"']
}

/// The text of one field: a comma, the quoted escaped key, a colon, the
/// quoted escaped value.
pub open spec fn spec_encode_field(k: Seq<char>, v: Seq<char>) -> Seq<char> {
    seq![',', '"'] + esc(k) + seq!['"', ':', '"'] + esc(v) + seq!['"']
}

/// The text of a field list, in order.
pub open spec fn spec_encode_fields(fs: Seq<(Seq<char>, Seq<char>)>) -> Seq<char>
    decreases fs.len(),
{
    if fs.len() == 0 {
        Seq::empty()
    } else {
        spec_encode_field(fs[0].0, fs[0].1) + spec_encode_fields(fs.drop_first())
    }
}

/// Encoding one more field extends the encoded text.
pub proof fn lemma_encode_fields_push(fs: Seq<(Seq<char>, Seq<char>)>, f: (Seq<char>, Seq<char>))
    ensures
        spec_encode_fields(fs.push(f)) == spec_encode_fields(fs) + spec_encode_field(f.0, f.1),
    decreases fs.len(),
{
    if fs.len() == 0 {
        assert(fs.push(f) =~= seq![f]);
        assert(seq![f].drop_first() =~= Seq::<(Seq<char>, Seq<char>)>::empty());
        assert(spec_encode_fields(seq![f]) == spec_encode_field(f.0, f.1) + spec_encode_fields(
            Seq::<(Seq<char>, Seq<char>)>::empty(),
        ));
        assert(spec_encode_fields(Seq::<(Seq<char>, Seq<char>)>::empty()) =~= Seq::<char>::empty());
        assert(spec_encode_field(f.0, f.1) + Seq::<char>::empty() =~= spec_encode_field(f.0, f.1));
        assert(spec_encode_fields(fs) + spec_encode_field(f.0, f.1) =~= spec_encode_field(
            f.0,
            f.1,
        ));
        assert(spec_encode_fields(fs.push(f)) =~= spec_encode_fields(fs) + spec_encode_field(
            f.0,
            f.1,
        ));
    } else {
        assert(fs.push(f).drop_first() =~= fs.drop_first().push(f));
        lemma_encode_fields_push(fs.drop_first(), f);
        assert(spec_encode_fields(fs.push(f)) =~= spec_encode_fields(fs) + spec_encode_field(
            f.0,
            f.1,
        ));
    }
}

/// The full canonical text of a payload.
pub open spec fn spec_encode_payload(tag: Seq<char>, fs: Seq<(Seq<char>, Seq<char>)>) -> Seq<char> {
    payload_header() + esc(tag) + seq!['"'] + spec_encode_fields(fs) + seq!['}']
}

/// Appends the escaped form of `s`.
fn append_escaped(out: &mut String, s: &str)
    ensures
        final(out)@ == old(out)@ + esc(s@),
{
    let n = s.unicode_len();
    let mut i: usize = 0;
    while i < n
        invariant
            i <= n,
            n == s@.len(),
            out@ == old(out)@ + esc(s@.subrange(0, i as int)),
        decreases n - i,
    {
        let c = s.get_char(i);
        if c == '"' {
            push_char(out, '\\');
            push_char(out, '"');
        } else if c == '\\' {
            push_char(out, '\\');
            push_char(out, '\\');
        } else if c == '\n' {
            push_char(out, '\\');
            push_char(out, 'n');
        } else if c == '\r' {
            push_char(out, '\\');
            push_char(out, 'r');
        } else if c == '\t' {
            push_char(out, '\\');
            push_char(out, 't');
        } else {
            push_char(out, c);
        }
        proof {
            let pre = s@.subrange(0, i as int);
            assert(s@.subrange(0, i + 1) =~= pre.push(s@[i as int]));
            lemma_esc_push(pre, s@[i as int]);
            assert(out@ =~= old(out)@ + esc(pre) + esc_char(s@[i as int]));
            assert(out@ =~= old(out)@ + esc(s@.subrange(0, i + 1)));
        }
        i += 1;
    }
    proof {
        assert(s@.subrange(0, n as int) =~= s@);
    }
}

/// Renders a payload in its canonical wire form.
pub fn encode_payload(p: &Payload) -> (r: String)
    ensures
        r@ == spec_encode_payload(p@.tag, p@.fields),
{
    let mut out = String::from_str("{\"type\":\"");
    proof {
        reveal_strlit("{\"type\":\"");
        assert(out@ =~= payload_header());
    }
    append_escaped(&mut out, p.tag.as_str());
    push_char(&mut out, '"');
    proof {
        assert(out@ =~= payload_header() + esc(p@.tag) + seq!['"']);
        assert(p@.fields.subrange(0, 0) =~= Seq::<(Seq<char>, Seq<char>)>::empty());
    }
    let ghost head: Seq<char> = payload_header() + esc(p@.tag) + seq!['"'];
    let n = p.fields.len();
    let mut j: usize = 0;
    while j < n
        invariant
            j <= n,
            n == p.fields@.len(),
            p@.fields.len() == n,
            out@ == head + spec_encode_fields(p@.fields.subrange(0, j as int)),
        decreases n - j,
    {
        let kv: &(String, String) = &p.fields[j];
        push_char(&mut out, ',');
        push_char(&mut out, '"');
        append_escaped(&mut out, kv.0.as_str());
        push_char(&mut out, '"');
        push_char(&mut out, ':');
        push_char(&mut out, '"');
        append_escaped(&mut out, kv.1.as_str());
        push_char(&mut out, '"');
        proof {
            let pre = p@.fields.subrange(0, j as int);
            let f = p@.fields[j as int];
            assert(p@.fields.subrange(0, j + 1) =~= pre.push(f));
            lemma_encode_fields_push(pre, f);
            assert(out@ =~= head + spec_encode_fields(pre) + spec_encode_field(f.0, f.1));
            assert(out@ =~= head + spec_encode_fields(p@.fields.subrange(0, j + 1)));
        }
        j += 1;
    }
    push_char(&mut out, '}');
    proof {
        assert(p@.fields.subrange(0, n as int) =~= p@.fields);
        assert(out@ =~= spec_encode_payload(p@.tag, p@.fields));
    }
    out
}

/// The character named by a two-character escape, if any.
pub open spec fn unesc_code(e: char) -> Option<char> {
    if e == '"' {
        Some('"')
    } else if e == '\\' {
        Some('\\')
    } else if e == 'n' {
        Some('\n')
    } else if e == 'r' {
        Some('\r')
    } else if e == 't' {
        Some('\t')
    } else {
        None
    }
}

/// Reads a string body from position `i` up to its closing quote,
/// undoing escapes; yields the string and the position after the quote.
pub open spec fn spec_read_string(v: Seq<char>, i: nat) -> Option<(Seq<char>, nat)>
    decreases v.len() - i,
{
    if i >= v.len() {
        None
    } else if v[i as int] == '"' {
        Some((Seq::empty(), (i + 1) as nat))
    } else if v[i as int] == '\\' {
        if i + 1 >= v.len() {
            None
        } else {
            match unesc_code(v[i as int + 1]) {
                Option::None => None,
                Option::Some(d) => match spec_read_string(v, (i + 2) as nat) {
                    Option::None => None,
                    Option::Some(r) => Some((seq![d] + r.0, r.1)),
                },
            }
        }
    } else {
        match spec_read_string(v, (i + 1) as nat) {
            Option::None => None,
            Option::Some(r) => Some((seq![v[i as int]] + r.0, r.1)),
        }
    }
}

/// Reads the field list from position `i` to the closing brace, which
/// must end the text.
pub open spec fn spec_read_fields(v: Seq<char>, i: nat) -> Option<Seq<(Seq<char>, Seq<char>)>>
    decreases v.len() - i,
{
    if i >= v.len() {
        None
    } else if v[i as int] == '}' {
        if i + 1 == v.len() {
            Some(Seq::empty())
        } else {
            None
        }
    } else if v[i as int] == ',' {
        if i + 1 >= v.len() || v[i as int + 1] != '"' {
            None
        } else {
            match spec_read_string(v, (i + 2) as nat) {
                Option::None => None,
                Option::Some(k) => {
                    let j = k.1;
                    if j + 1 >= v.len() || v[j as int] != ':' || v[j as int + 1] != '"' {
                        None
                    } else {
                        match spec_read_string(v, (j + 2) as nat) {
                            Option::None => None,
                            Option::Some(w) => {
                                let j2 = w.1;
                                if i < j2 && j2 <= v.len() {
                                    match spec_read_fields(v, j2) {
                                        Option::None => None,
                                        Option::Some(fs) => Some(seq![(k.0, w.0)] + fs),
                                    }
                                } else {
                                    None
                                }
                            },
                        }
                    }
                },
            }
        }
    } else {
        None
    }
}

/// Parses a whole payload text: header, tag, fields, closing brace.
pub open spec fn spec_parse_payload(v: Seq<char>) -> Option<
    (Seq<char>, Seq<(Seq<char>, Seq<char>)>),
> {
    if v.len() < 9 || v.subrange(0, 9) != payload_header() {
        None
    } else {
        match spec_read_string(v, 9) {
            Option::None => None,
            Option::Some(t) => match spec_read_fields(v, t.1) {
                Option::None => None,
                Option::Some(fs) => Some((t.0, fs)),
            },
        }
    }
}

fn unesc_code_exec(e: char) -> (r: Option<char>)
    ensures
        r == unesc_code(e),
{
    if e == '"' {
        Some('"')
    } else if e == '\\' {
        Some('\\')
    } else if e == 'n' {
        Some('\n')
    } else if e == 'r' {
        Some('\r')
    } else if e == 't' {
        Some('\t')
    } else {
        None
    }
}

fn read_string_at(v: &Vec<char>, i: usize) -> (r: Option<(String, usize)>)
    ensures
        match r {
            Option::None => spec_read_string(v@, i as nat) is None,
            Option::Some(p) => spec_read_string(v@, i as nat) == Some((p.0@, p.1 as nat)),
        },
    decreases v@.len() - i,
{
    if i >= v.len() {
        None
    } else {
        let c = v[i];
        if c == '"' {
            Some((String::new(), i + 1))
        } else if c == '\\' {
            if i + 1 >= v.len() {
                None
            } else {
                let e = v[i + 1];
                match unesc_code_exec(e) {
                    Option::None => None,
                    Option::Some(d) => match read_string_at(v, i + 2) {
                        Option::None => None,
                        Option::Some(p) => {
                            let mut out = String::new();
                            push_char(&mut out, d);
                            out.append(p.0.as_str());
                            proof {
                                assert(out@ =~= seq![d] + p.0@);
                            }
                            Some((out, p.1))
                        },
                    },
                }
            }
        } else {
            match read_string_at(v, i + 1) {
                Option::None => None,
                Option::Some(p) => {
                    let mut out = String::new();
                    push_char(&mut out, c);
                    out.append(p.0.as_str());
                    proof {
                        assert(out@ =~= seq![v@[i as int]] + p.0@);
                    }
                    Some((out, p.1))
                },
            }
        }
    }
}

/// The field list of a parsed payload, seen mathematically.
pub open spec fn fields_model(fs: Seq<(String, String)>) -> Seq<(Seq<char>, Seq<char>)> {
    Seq::new(fs.len(), |k: int| (fs[k].0@, fs[k].1@))
}

fn read_fields_at(v: &Vec<char>, i: usize) -> (r: Option<Vec<(String, String)>>)
    ensures
        match r {
            Option::None => spec_read_fields(v@, i as nat) is None,
            Option::Some(fs) => spec_read_fields(v@, i as nat) == Some(fields_model(fs@)),
        },
    decreases v@.len() - i,
{
    if i >= v.len() {
        None
    } else {
        let c = v[i];
        if c == '}' {
            if i + 1 == v.len() {
                let fs: Vec<(String, String)> = Vec::new();
                proof {
                    assert(fields_model(fs@) =~= Seq::<(Seq<char>, Seq<char>)>::empty());
                }
                Some(fs)
            } else {
                None
            }
        } else if c == ',' {
            if i + 1 >= v.len() {
                None
            } else if v[i + 1] != '"' {
                None
            } else {
                match read_string_at(v, i + 2) {
                    Option::None => None,
                    Option::Some(kp) => {
                        let (key, j) = kp;
                        if j >= v.len() || j + 1 >= v.len() {
                            None
                        } else if v[j] != ':' {
                            None
                        } else if v[j + 1] != '"' {
                            None
                        } else {
                            match read_string_at(v, j + 2) {
                                Option::None => None,
                                Option::Some(wp) => {
                                    let (val, j2) = wp;
                                    if i < j2 && j2 <= v.len() {
                                        match read_fields_at(v, j2) {
                                            Option::None => None,
                                            Option::Some(mut fs) => {
                                                fs.insert(0, (key, val));
                                                proof {
                                                    let skey = fs@[0].0@;
                                                    let sval = fs@[0].1@;
                                                    assert(fields_model(fs@) =~= seq![
                                                        (skey, sval),
                                                    ] + fields_model(fs@.drop_first()));
                                                }
                                                Some(fs)
                                            },
                                        }
                                    } else {
                                        None
                                    }
                                },
                            }
                        }
                    },
                }
            }
        } else {
            None
        }
    }
}

fn payload_header_at(v: &Vec<char>) -> (r: bool)
    ensures
        r == (v@.len() >= 9 && v@.subrange(0, 9) == payload_header()),
{
    if v.len() < 9 {
        return false;
    }
    let r = v[0] == '{' && v[1] == '"' && v[2] == 't' && v[3] == 'y' && v[4] == 'p' && v[5] == 'e'
        && v[6] == '"' && v[7] == ':' && v[8] == '"';
    proof {
        if r {
            assert(v@.subrange(0, 9) =~= payload_header());
        } else {
            if v@.subrange(0, 9) == payload_header() {
                assert(forall|k: int| 0 <= k < 9 ==> v@.subrange(0, 9)[k] == v@[k]);
                assert(v@[0] == '{' && v@[1] == '"' && v@[2] == 't' && v@[3] == 'y' && v@[4] == 'p'
                    && v@[5] == 'e' && v@[6] == '"' && v@[7] == ':' && v@[8] == '"');
                assert(false);
            }
        }
    }
    r
}

/// Parses a payload from its wire text; accepts exactly the canonical
/// form the encoder writes.
pub fn decode_payload(s: &str) -> (r: Option<Payload>)
    ensures
        match r {
            Option::None => spec_parse_payload(s@) is None,
            Option::Some(p) => spec_parse_payload(s@) == Some((p@.tag, p@.fields)),
        },
{
    let v = crate::text::str_to_chars(s);
    if !payload_header_at(&v) {
        return None;
    }
    match read_string_at(&v, 9) {
        Option::None => None,
        Option::Some(tp) => {
            let (tag, j) = tp;
            match read_fields_at(&v, j) {
                Option::None => None,
                Option::Some(fields) => {
                    let p = Payload { tag, fields };
                    proof {
                        assert(p@.fields =~= fields_model(p.fields@));
                    }
                    Some(p)
                },
            }
        },
    }
}

/// After a known prefix of the remaining text, the rest of the text is
/// the rest of the decomposition.
proof fn lemma_tail_after(v: Seq<char>, i: nat, a: Seq<char>, b: Seq<char>)
    requires
        i <= v.len(),
        v.subrange(i as int, v.len() as int) == a + b,
    ensures
        i + a.len() <= v.len(),
        v.subrange(i as int + a.len() as int, v.len() as int) == b,
{
    assert(v.subrange(i as int, v.len() as int).len() == a.len() + b.len());
    assert(v.subrange(i as int + a.len() as int, v.len() as int) =~= b) by {
        assert forall|m: int| 0 <= m < b.len() implies v.subrange(
            i as int + a.len() as int,
            v.len() as int,
        )[m] == b[m] by {
            assert(v.subrange(i as int, v.len() as int)[a.len() as int + m] == v[i + a.len() + m]);
            assert((a + b)[a.len() + m] == b[m]);
        }
    }
}

/// Reading a string body from escaped text recovers the original string
/// and stops right after the closing quote.
pub proof fn lemma_read_string_esc(v: Seq<char>, i: nat, s: Seq<char>, rest: Seq<char>)
    requires
        i <= v.len(),
        v.subrange(i as int, v.len() as int) == esc(s) + seq!['"'] + rest,
    ensures
        spec_read_string(v, i) == Some((s, (i + esc(s).len() + 1) as nat)),
    decreases s.len(),
{
    let tail = v.subrange(i as int, v.len() as int);
    assert(tail.len() == esc(s).len() + 1 + rest.len());
    if s.len() == 0 {
        assert(esc(s) =~= Seq::<char>::empty());
        assert(tail[0] == '"');
        assert(v[i as int] == tail[0]);
        assert(spec_read_string(v, i) == Some((Seq::<char>::empty(), (i + 1) as nat)));
        assert(s =~= Seq::<char>::empty());
    } else {
        let c = s[0];
        let s1 = s.drop_first();
        assert(esc(s) == esc_char(c) + esc(s1));
        let after = esc(s1) + seq!['"'] + rest;
        assert(tail =~= esc_char(c) + after);
        lemma_tail_after(v, i, esc_char(c), after);
        if c == '"' || c == '\\' || c == '\n' || c == '\r' || c == '\t' {
            assert(esc_char(c).len() == 2 && esc_char(c)[0] == '\\');
            let x = esc_char(c)[1];
            assert(v[i as int] == tail[0]);
            assert(tail[0] == (esc_char(c) + after)[0]);
            assert(tail[0] == '\\');
            assert(i + 1 < v.len());
            assert(v[i as int + 1] == tail[1]);
            assert(tail[1] == x);
            if c == '"' {
                assert(unesc_code(x) == Some(c));
            } else if c == '\\' {
                assert(unesc_code(x) == Some(c));
            } else if c == '\n' {
                assert(x == 'n');
                assert(unesc_code(x) == Some(c));
            } else if c == '\r' {
                assert(x == 'r');
                assert(unesc_code(x) == Some(c));
            } else {
                assert(x == 't');
                assert(unesc_code(x) == Some(c));
            }
            lemma_read_string_esc(v, (i + 2) as nat, s1, rest);
            assert(seq![c] + s1 =~= s);
            assert(spec_read_string(v, i) == Some((s, (i + esc(s).len() + 1) as nat)));
        } else {
            assert(esc_char(c) =~= seq![c]);
            assert(v[i as int] == tail[0]);
            assert(tail[0] == c);
            assert(c != '"' && c != '\\');
            lemma_read_string_esc(v, (i + 1) as nat, s1, rest);
            assert(seq![c] + s1 =~= s);
            assert(spec_read_string(v, i) == Some((s, (i + esc(s).len() + 1) as nat)));
        }
    }
}

/// Reading the field list from encoded fields recovers the list.
pub proof fn lemma_read_fields_enc(v: Seq<char>, i: nat, fs: Seq<(Seq<char>, Seq<char>)>)
    requires
        i <= v.len(),
        v.subrange(i as int, v.len() as int) == spec_encode_fields(fs) + seq!['}'],
    ensures
        spec_read_fields(v, i) == Some(fs),
    decreases fs.len(),
{
    let tail = v.subrange(i as int, v.len() as int);
    assert(tail.len() == spec_encode_fields(fs).len() + 1);
    if fs.len() == 0 {
        assert(spec_encode_fields(fs) =~= Seq::<char>::empty());
        assert(tail[0] == '}');
        assert(v[i as int] == '}');
        assert(i + 1 == v.len());
        assert(fs =~= Seq::<(Seq<char>, Seq<char>)>::empty());
    } else {
        let f = fs[0];
        let k = f.0;
        let w = f.1;
        let fs1 = fs.drop_first();
        assert(spec_encode_fields(fs) == spec_encode_field(k, w) + spec_encode_fields(fs1));
        let rest2 = spec_encode_fields(fs1) + seq!['}'];
        let rest1 = esc(w) + seq!['"'] + rest2;
        let rest0 = esc(k) + seq!['"'] + (seq![':', '"'] + rest1);
        assert(tail =~= seq![',', '"'] + rest0);
        lemma_tail_after(v, i, seq![',', '"'], rest0);
        assert(v[i as int] == tail[0]);
        assert(tail[0] == ',');
        assert(i + 1 < v.len());
        assert(v[i as int + 1] == tail[1]);
        assert(tail[1] == '"');
        lemma_read_string_esc(v, (i + 2) as nat, k, seq![':', '"'] + rest1);
        let j = i + 2 + esc(k).len() + 1;
        assert(spec_read_string(v, (i + 2) as nat) == Some((k, j as nat)));
        lemma_tail_after(v, (i + 2) as nat, esc(k) + seq!['"'], seq![':', '"'] + rest1);
        let tail_j = v.subrange(j as int, v.len() as int);
        assert(tail_j == seq![':', '"'] + rest1);
        assert(j + 1 < v.len());
        assert(v[j as int] == tail_j[0]);
        assert(tail_j[0] == ':');
        assert(v[j as int + 1] == tail_j[1]);
        assert(tail_j[1] == '"');
        lemma_tail_after(v, j as nat, seq![':', '"'], rest1);
        lemma_read_string_esc(v, (j + 2) as nat, w, rest2);
        let j2 = j + 2 + esc(w).len() + 1;
        assert(spec_read_string(v, (j + 2) as nat) == Some((w, j2 as nat)));
        assert(i < j2 && j2 <= v.len());
        lemma_tail_after(v, (j + 2) as nat, esc(w) + seq!['"'], rest2);
        assert(v.subrange(j2 as int, v.len() as int) == spec_encode_fields(fs1) + seq!['}']);
        lemma_read_fields_enc(v, j2 as nat, fs1);
        assert(seq![(k, w)] + fs1 =~= fs);
        assert(spec_read_fields(v, i) == Some(fs));
    }
}

/// Round-trip of the wire format: parsing the canonical text of any
/// payload yields exactly that payload's tag and fields.
pub proof fn lemma_parse_encode(tag: Seq<char>, fs: Seq<(Seq<char>, Seq<char>)>)
    ensures
        spec_parse_payload(spec_encode_payload(tag, fs)) == Some((tag, fs)),
{
    let v = spec_encode_payload(tag, fs);
    assert(v.len() >= 9);
    assert(v.subrange(0, 9) =~= payload_header());
    let rest = spec_encode_fields(fs) + seq!['}'];
    assert(v.subrange(9, v.len() as int) =~= esc(tag) + seq!['"'] + rest);
    lemma_read_string_esc(v, 9 as nat, tag, rest);
    let j = 9 + esc(tag).len() + 1;
    assert(spec_read_string(v, 9 as nat) == Some((tag, j as nat)));
    assert(v.subrange(j as int, v.len() as int) =~= spec_encode_fields(fs) + seq!['}']);
    lemma_read_fields_enc(v, j as nat, fs);
}

} // verus!
