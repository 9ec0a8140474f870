//! The record codec: attachment references travel as one comma-delimited
//! string (`""` for none), and a raw row becomes a `MsgLogs` record only
//! when every column is present.

use vstd::prelude::*;
use vstd::string::StrSliceExecFns;
use vstd::string::StringExecFns;

use crate::errors::CodecError;
use crate::record::MsgLogs;

verus! {

/// The delimiter-joined image of a sequence of attachment references:
/// the elements in order with a comma between neighbours, and the empty
/// sequence giving the empty string.
pub open spec fn spec_encode_attachments(v: Seq<Seq<char>>) -> Seq<char>
    decreases v.len(),
{
    if v.len() == 0 {
        Seq::empty()
    } else if v.len() == 1 {
        v[0]
    } else {
        v[0] + seq![','] + spec_encode_attachments(v.drop_first())
    }
}

/// The position of the first comma in `s`, or `s.len()` if there is none.
pub open spec fn first_comma(s: Seq<char>) -> int
    decreases s.len(),
{
    if s.len() == 0 {
        0
    } else if s[0] == ',' {
        0
    } else {
        1 + first_comma(s.drop_first())
    }
}

/// `s` cut at every comma: always at least one piece, so that splitting
/// `""` gives `[""]`. The decode below maps `""` to the empty sequence
/// instead.
pub open spec fn split_commas(s: Seq<char>) -> Seq<Seq<char>>
    decreases s.len(),
{
    let i = first_comma(s);
    if 0 <= i < s.len() {
        seq![s.subrange(0, i)] + split_commas(s.subrange(i + 1, s.len() as int))
    } else {
        seq![s]
    }
}

/// The attachment references recovered from their delimiter-joined image:
/// the empty string decodes to the empty sequence, anything else splits at
/// every comma.
pub open spec fn spec_decode_attachments(s: Seq<char>) -> Seq<Seq<char>> {
    if s.len() == 0 {
        Seq::empty()
    } else {
        split_commas(s)
    }
}

/// The views of a vector of strings.
pub open spec fn string_views(v: Seq<String>) -> Seq<Seq<char>> {
    v.map_values(|s: String| s@)
}

pub proof fn lemma_first_comma_bounds(s: Seq<char>)
    ensures
        0 <= first_comma(s) <= s.len(),
        first_comma(s) < s.len() ==> s[first_comma(s)] == ',',
        forall|j: int| 0 <= j < first_comma(s) ==> s[j] != ',',
    decreases s.len(),
{
    if s.len() == 0 {
    } else if s[0] == ',' {
    } else {
        lemma_first_comma_bounds(s.drop_first());
        assert forall|j: int| 0 <= j < first_comma(s) implies s[j] != ',' by {
            if j > 0 {
                assert(s.drop_first()[j - 1] != ',');
            }
        }
    }
}

pub proof fn lemma_first_comma_none(s: Seq<char>)
    requires
        forall|j: int| 0 <= j < s.len() ==> s[j] != ',',
    ensures
        first_comma(s) == s.len(),
    decreases s.len(),
{
    if s.len() == 0 {
    } else {
        assert(forall|j: int| 0 <= j < s.drop_first().len() ==> s.drop_first()[j] != ',');
        lemma_first_comma_none(s.drop_first());
    }
}

pub proof fn lemma_first_comma_at(s: Seq<char>, i: int)
    requires
        0 <= i < s.len(),
        s[i] == ',',
        forall|j: int| 0 <= j < i ==> s[j] != ',',
    ensures
        first_comma(s) == i,
    decreases s.len(),
{
    if i == 0 {
    } else {
        assert(forall|j: int| 0 <= j < i - 1 ==> s.drop_first()[j] != ',');
        lemma_first_comma_at(s.drop_first(), i - 1);
    }
}

/// Joining the pieces of any split restores the string: the split never
/// loses or reorders a character.
pub proof fn lemma_encode_split(s: Seq<char>)
    ensures
        split_commas(s).len() >= 1,
        spec_encode_attachments(split_commas(s)) == s,
    decreases s.len(),
{
    lemma_first_comma_bounds(s);
    let i = first_comma(s);
    if 0 <= i < s.len() {
        let rest = s.subrange(i + 1, s.len() as int);
        lemma_encode_split(rest);
        let parts = seq![s.subrange(0, i)] + split_commas(rest);
        assert(parts.len() >= 2);
        assert(parts[0] == s.subrange(0, i));
        assert(parts.drop_first() =~= split_commas(rest));
        assert(spec_encode_attachments(parts) == parts[0] + seq![','] + spec_encode_attachments(
            split_commas(rest),
        ));
        assert(s.subrange(0, i) + seq![','] + rest =~= s);
    } else {
        assert(split_commas(s) == seq![s]);
        assert(spec_encode_attachments(seq![s]) == s);
    }
}

/// `encode_attachments(decode_attachments(s)) == s`: decoding any stored
/// attachments string and encoding the result gives the string back.
pub proof fn lemma_encode_decode(s: Seq<char>)
    ensures
        spec_encode_attachments(spec_decode_attachments(s)) == s,
{
    if s.len() == 0 {
        assert(spec_encode_attachments(Seq::<Seq<char>>::empty()) =~= s);
    } else {
        lemma_encode_split(s);
    }
}

/// Splitting the joined image of comma-free pieces recovers the pieces.
pub proof fn lemma_split_encode(v: Seq<Seq<char>>)
    requires
        v.len() >= 1,
        forall|i: int| 0 <= i < v.len() ==> !(#[trigger] v[i]).contains(','),
    ensures
        split_commas(spec_encode_attachments(v)) == v,
    decreases v.len(),
{
    let e = spec_encode_attachments(v);
    if v.len() == 1 {
        assert(e == v[0]);
        assert(forall|j: int| 0 <= j < e.len() ==> e[j] != ',') by {
            assert(!v[0].contains(','));
        }
        lemma_first_comma_none(e);
        assert(split_commas(e) =~= v);
    } else {
        let rest = v.drop_first();
        let er = spec_encode_attachments(rest);
        assert(e == v[0] + seq![','] + er);
        assert(forall|i: int| 0 <= i < rest.len() ==> !(#[trigger] rest[i]).contains(','));
        lemma_split_encode(rest);
        assert(e[v[0].len() as int] == ',');
        assert(forall|j: int| 0 <= j < v[0].len() ==> e[j] == v[0][j] && e[j] != ',') by {
            assert(!v[0].contains(','));
        }
        lemma_first_comma_at(e, v[0].len() as int);
        assert(e.subrange(0, v[0].len() as int) =~= v[0]);
        assert(e.subrange(v[0].len() as int + 1, e.len() as int) =~= er);
        assert(split_commas(e) == seq![v[0]] + split_commas(er));
        assert(seq![v[0]] + rest =~= v);
    }
}

/// `decode_attachments(encode_attachments(v)) == v` for every sequence of
/// comma-free references, except the one-element sequence holding `""`,
/// whose image `""` decodes to the empty sequence instead.
pub proof fn lemma_decode_encode(v: Seq<Seq<char>>)
    requires
        forall|i: int| 0 <= i < v.len() ==> !(#[trigger] v[i]).contains(','),
        !(v.len() == 1 && v[0].len() == 0),
    ensures
        spec_decode_attachments(spec_encode_attachments(v)) == v,
{
    let e = spec_encode_attachments(v);
    if v.len() == 0 {
        assert(spec_decode_attachments(e) =~= v);
    } else {
        lemma_split_encode(v);
        assert(e.len() > 0) by {
            if v.len() == 1 {
                assert(e == v[0]);
            } else {
                assert(e == v[0] + seq![','] + spec_encode_attachments(v.drop_first()));
                assert(e.len() >= 1);
            }
        }
    }
}

/// Joins attachment references into one comma-delimited string; the empty
/// vector encodes to the empty string.
pub fn encode_attachments(attachments: &Vec<String>) -> (r: String)
    ensures
        r@ == spec_encode_attachments(string_views(attachments@)),
{
    let mut r = String::new();
    let mut i: usize = 0;
    while i < attachments.len()
        invariant
            i <= attachments@.len(),
            r@ == spec_encode_attachments(string_views(attachments@.subrange(0, i as int))),
        decreases attachments@.len() - i,
    {
        let ghost prefix = string_views(attachments@.subrange(0, i as int));
        if i > 0 {
            r.append(",");
            proof {
                reveal_strlit(",");
            }
        }
        r.append(attachments[i].as_str());
        proof {
            lemma_encode_snoc(prefix, attachments@[i as int]@);
            assert(string_views(attachments@.subrange(0, i + 1 as int)) =~= prefix.push(
                attachments@[i as int]@,
            ));
            if i > 0 {
                assert(prefix.len() > 0);
            }
        }
        i += 1;
    }
    proof {
        assert(attachments@.subrange(0, attachments@.len() as int) =~= attachments@);
    }
    r
}

/// Appending one more piece to a join appends a comma (unless the join was
/// empty) and the piece.
pub proof fn lemma_encode_snoc(v: Seq<Seq<char>>, x: Seq<char>)
    ensures
        v.len() == 0 ==> spec_encode_attachments(v.push(x)) == x,
        v.len() > 0 ==> spec_encode_attachments(v.push(x)) == spec_encode_attachments(v)
            + seq![','] + x,
    decreases v.len(),
{
    let p = v.push(x);
    if v.len() == 0 {
        assert(p.len() == 1 && p[0] == x);
    } else if v.len() == 1 {
        assert(p.len() == 2);
        assert(p[0] == v[0]);
        assert(p.drop_first() =~= seq![x]);
        assert(spec_encode_attachments(seq![x]) == x);
    } else {
        lemma_encode_snoc(v.drop_first(), x);
        assert(p.drop_first() =~= v.drop_first().push(x));
        assert(p[0] == v[0]);
        assert(spec_encode_attachments(p) == v[0] + seq![','] + spec_encode_attachments(
            v.drop_first().push(x),
        ));
        assert(v[0] + seq![','] + (spec_encode_attachments(v.drop_first()) + seq![','] + x) =~= (
        v[0] + seq![','] + spec_encode_attachments(v.drop_first())) + seq![','] + x);
    }
}

/// Splits a comma-delimited string back into the attachment references;
/// the empty string decodes to the empty vector.
pub fn decode_attachments(s: &str) -> (r: Vec<String>)
    ensures
        string_views(r@) == spec_decode_attachments(s@),
{
    let n = s.unicode_len();
    let mut out: Vec<String> = Vec::new();
    if n == 0 {
        proof {
            assert(string_views(out@) =~= spec_decode_attachments(s@));
        }
        return out;
    }
    proof {
        assert(s@.subrange(0, n as int) =~= s@);
        assert(string_views(out@) + split_commas(s@) =~= split_commas(s@));
    }
    let mut start: usize = 0;
    let mut i: usize = 0;
    while i < n
        invariant
            start <= i <= n,
            n == s@.len(),
            forall|j: int| start <= j < i ==> s@[j] != ',',
            split_commas(s@) =~= string_views(out@) + split_commas(
                s@.subrange(start as int, n as int),
            ),
        decreases n - i,
    {
        if s.get_char(i) == ',' {
            let piece = s.substring_char(start, i);
            let ghost prev = out@;
            out.push(piece.to_owned());
            proof {
                let tail = s@.subrange(start as int, n as int);
                lemma_first_comma_at(tail, i - start as int);
                assert(tail.subrange(0, i - start as int) =~= s@.subrange(start as int, i as int));
                assert(tail.subrange(i - start + 1 as int, tail.len() as int) =~= s@.subrange(
                    i + 1 as int,
                    n as int,
                ));
                assert(split_commas(tail) == seq![s@.subrange(start as int, i as int)]
                    + split_commas(s@.subrange(i + 1 as int, n as int)));
                assert(string_views(out@) =~= string_views(prev).push(piece@));
                assert(string_views(prev) + split_commas(tail) =~= string_views(out@)
                    + split_commas(s@.subrange(i + 1 as int, n as int)));
            }
            start = i + 1;
        }
        i += 1;
    }
    let piece = s.substring_char(start, n);
    let ghost prev = out@;
    out.push(piece.to_owned());
    proof {
        let tail = s@.subrange(start as int, n as int);
        lemma_first_comma_none(tail);
        assert(split_commas(tail) == seq![tail]);
        assert(string_views(out@) =~= string_views(prev).push(piece@));
        assert(string_views(out@) =~= string_views(prev) + split_commas(tail));
    }
    out
}

/// One raw row as handed back by a backend: each column either present
/// with its value or absent.
pub struct LogRow {
    pub msg_id: Option<i64>,
    pub guild_id: Option<i64>,
    pub channel_id: Option<i64>,
    pub author_id: Option<i64>,
    pub content: Option<String>,
    pub attachments: Option<String>,
}

/// Validates column presence and assembles the record; any absent column
/// makes the whole row malformed.
pub fn parse_msg_logs_record(row: LogRow) -> (r: Result<MsgLogs, CodecError>)
    ensures
        r is Ok <==> {
            &&& row.msg_id is Some
            &&& row.guild_id is Some
            &&& row.channel_id is Some
            &&& row.author_id is Some
            &&& row.content is Some
            &&& row.attachments is Some
        },
        r matches Ok(m) ==> {
            &&& row.msg_id == Some(m.msg_id)
            &&& row.guild_id == Some(m.guild_id)
            &&& row.channel_id == Some(m.channel_id)
            &&& row.author_id == Some(m.author_id)
            &&& row.content == Some(m.content)
            &&& row.attachments == Some(m.attachments)
        },
        r is Err ==> r == Err::<MsgLogs, CodecError>(CodecError::MalformedRow),
{
    let LogRow { msg_id, guild_id, channel_id, author_id, content, attachments } = row;
    match (msg_id, guild_id, channel_id, author_id, content, attachments) {
        (Some(msg_id), Some(guild_id), Some(channel_id), Some(author_id), Some(content), Some(
            attachments,
        )) => Ok(MsgLogs { msg_id, guild_id, channel_id, author_id, content, attachments }),
        _ => Err(CodecError::MalformedRow),
    }
}

} // verus!
