use crate::errors::DecodeError;
use vstd::prelude::*;
use vstd::utf8::{decode_utf8, encode_utf8, encode_utf8_decode_utf8, encode_utf8_valid_utf8,
    valid_utf8};

verus! {

// A domain name travels as a run of labels, each a length byte (1 to 255)
// followed by that many bytes of UTF-8, closed by a single zero byte. The
// in-memory form keeps only the label strings; the terminator is a wire
// detail.

/// A label fits on the wire when its UTF-8 form is 1 to 255 bytes long.
pub open spec fn valid_label(l: Seq<char>) -> bool {
    1 <= encode_utf8(l).len() <= 255
}

/// Every label of the name fits on the wire.
pub open spec fn valid_name(name: Seq<Seq<char>>) -> bool {
    forall|i: int| 0 <= i < name.len() ==> valid_label(#[trigger] name[i])
}

/// The wire form of one label: its byte length, then its UTF-8 bytes.
pub open spec fn spec_label_wire(l: Seq<char>) -> Seq<u8> {
    seq![encode_utf8(l).len() as u8] + encode_utf8(l)
}

/// The wire form of a run of labels, without the terminator.
pub open spec fn spec_labels_wire(name: Seq<Seq<char>>) -> Seq<u8>
    decreases name.len(),
{
    if name.len() == 0 {
        Seq::empty()
    } else {
        spec_label_wire(name[0]) + spec_labels_wire(name.drop_first())
    }
}

/// The full wire form of a name: its labels, then the zero terminator.
pub open spec fn spec_name_wire(name: Seq<Seq<char>>) -> Seq<u8> {
    spec_labels_wire(name) + seq![0u8]
}

/// The UTF-8 byte count of all labels together.
pub open spec fn total_label_bytes(name: Seq<Seq<char>>) -> int
    decreases name.len(),
{
    if name.len() == 0 {
        0
    } else {
        encode_utf8(name[0]).len() + total_label_bytes(name.drop_first())
    }
}

/// The labels a byte buffer starts with and how many bytes they span
/// (terminator included), or why the name cannot be read: running out of
/// bytes is truncated input, a label that is not UTF-8 is an invalid label.
pub open spec fn spec_parse_name(b: Seq<u8>) -> Result<(Seq<Seq<char>>, int), DecodeError>
    decreases b.len(),
{
    if b.len() == 0 {
        Err(DecodeError::TruncatedInput)
    } else if b[0] == 0 {
        Ok((seq![], 1))
    } else if b.len() < 1 + b[0] {
        Err(DecodeError::TruncatedInput)
    } else {
        let chunk = b.subrange(1, 1 + b[0]);
        if !valid_utf8(chunk) {
            Err(DecodeError::InvalidLabel)
        } else {
            match spec_parse_name(b.skip(1 + b[0] as int)) {
                Ok((rest, used)) => Ok((seq![decode_utf8(chunk)] + rest, 1 + b[0] + used)),
                Err(e) => Err(e),
            }
        }
    }
}

/// Relies on std::str::from_utf8: it succeeds exactly on valid UTF-8, and
/// the string it yields reads back as those bytes decoded.
#[verifier::external_body]
fn bytes_to_string(b: &[u8]) -> (r: Option<String>)
    ensures
        (r is Some) <==> valid_utf8(b@),
        r matches Some(s) ==> s@ == decode_utf8(b@),
{
    match std::str::from_utf8(b) {
        Ok(s) => Some(s.to_string()),
        Err(_) => None,
    }
}

/// Appends the UTF-8 bytes of `s` to `out`.
fn push_str_bytes(out: &mut Vec<u8>, s: &str)
    ensures
        final(out)@ == old(out)@ + encode_utf8(s@),
{
    let b = s.as_bytes();
    let ghost orig = out@;
    for j in 0..b.len()
        invariant
            b@ == encode_utf8(s@),
            out@ == orig + b@.take(j as int),
    {
        out.push(b[j]);
        assert(out@ =~= orig + b@.take(j as int + 1));
    }
    assert(out@ =~= orig + encode_utf8(s@));
}

/// Appends the wire form of `name` — its labels, then the terminator — to
/// `out`. No compression is ever produced.
pub fn encode_name(name: &Vec<String>, out: &mut Vec<u8>)
    requires
        valid_name(name.deep_view()),
    ensures
        final(out)@ == old(out)@ + spec_name_wire(name.deep_view()),
{
    let ghost orig = out@;
    let ghost nv = name.deep_view();
    for i in 0..name.len()
        invariant
            valid_name(nv),
            nv == name.deep_view(),
            nv.len() == name.len(),
            out@ == orig + spec_labels_wire(nv.take(i as int)),
    {
        assert(nv[i as int] == name[i as int]@);
        let label: &String = &name[i];
        let n = label.as_str().as_bytes().len();
        assert(n == encode_utf8(label@).len());
        out.push(n as u8);
        push_str_bytes(out, label.as_str());
        proof {
            lemma_labels_wire_snoc(nv, i as int);
            assert(out@ =~= orig + spec_labels_wire(nv.take(i as int + 1)));
        }
    }
    assert(nv.take(nv.len() as int) =~= nv);
    out.push(0);
    assert(out@ =~= orig + spec_name_wire(nv));
}

/// Encoding one more label appends that label's wire form.
proof fn lemma_labels_wire_snoc(name: Seq<Seq<char>>, i: int)
    requires
        0 <= i < name.len(),
    ensures
        spec_labels_wire(name.take(i + 1)) == spec_labels_wire(name.take(i)) + spec_label_wire(
            name[i],
        ),
    decreases i,
{
    if i == 0 {
        assert(name.take(1).drop_first() =~= name.take(0));
        assert(spec_labels_wire(name.take(1)) =~= spec_labels_wire(name.take(0)) + spec_label_wire(
            name[0],
        ));
    } else {
        let d = name.drop_first();
        lemma_labels_wire_snoc(d, i - 1);
        assert(name.take(i + 1).drop_first() =~= d.take(i));
        assert(name.take(i).drop_first() =~= d.take(i - 1));
        assert(name.take(i + 1)[0] == name[0]);
        assert(name.take(i)[0] == name[0]);
        assert(d[i - 1] == name[i]);
        assert(spec_labels_wire(name.take(i + 1)) =~= spec_labels_wire(name.take(i))
            + spec_label_wire(name[i]));
    }
}

/// Decodes a label-encoded name from the front of `bytes`, returning the
/// labels and the number of bytes the name occupies, terminator included.
pub fn parse_name(bytes: &[u8]) -> (r: Result<(Vec<String>, usize), DecodeError>)
    ensures
        r matches Ok((name, used)) ==> spec_parse_name(bytes@) == Ok::<_, DecodeError>(
            (name.deep_view(), used as int),
        ) && used <= bytes@.len(),
        r matches Err(e) ==> spec_parse_name(bytes@) == Err::<(Seq<Seq<char>>, int), _>(e),
    decreases bytes@.len(),
{
    if bytes.len() == 0 {
        return Err(DecodeError::TruncatedInput);
    }
    let n = bytes[0];
    if n == 0 {
        let name: Vec<String> = Vec::new();
        assert(name.deep_view() =~= Seq::<Seq<char>>::empty());
        return Ok((name, 1));
    }
    if bytes.len() < 1 + n as usize {
        return Err(DecodeError::TruncatedInput);
    }
    let chunk = vstd::slice::slice_subrange(bytes, 1, 1 + n as usize);
    match bytes_to_string(chunk) {
        None => Err(DecodeError::InvalidLabel),
        Some(s) => {
            let rest = vstd::slice::slice_subrange(bytes, 1 + n as usize, bytes.len());
            assert(rest@ =~= bytes@.skip(1 + n as int));
            match parse_name(rest) {
                Err(e) => Err(e),
                Ok((mut name, used)) => {
                    let ghost pre = name.deep_view();
                    name.insert(0, s);
                    proof {
                        assert(name.deep_view() =~= seq![s@] + pre);
                        assert(bytes@.subrange(1, 1 + bytes@[0]) == chunk@);
                        assert(spec_parse_name(bytes@) == Ok::<_, DecodeError>(
                            (seq![decode_utf8(chunk@)] + pre, 1 + n + used as int),
                        ));
                        assert(seq![decode_utf8(chunk@)] + pre == name.deep_view());
                    }
                    Ok((name, 1 + n as usize + used))
                },
            }
        },
    }
}

/// Parsing a buffer that begins with the wire form of a valid name yields
/// exactly those labels and consumes exactly that wire form, whatever bytes
/// follow it: the terminator delimits the name.
pub proof fn lemma_parse_name_frame(name: Seq<Seq<char>>, rest: Seq<u8>)
    requires
        valid_name(name),
    ensures
        spec_parse_name(spec_name_wire(name) + rest) == Ok::<_, DecodeError>(
            (name, spec_name_wire(name).len() as int),
        ),
    decreases name.len(),
{
    let w = spec_name_wire(name);
    let b = w + rest;
    if name.len() == 0 {
        assert(w =~= seq![0u8]);
        assert(b[0] == 0);
        assert(name =~= Seq::<Seq<char>>::empty());
        assert(spec_parse_name(b) == Ok::<_, DecodeError>((name, w.len() as int)));
    } else {
        let l = name[0];
        let enc = encode_utf8(l);
        assert(valid_label(l));
        let rest_wire = spec_name_wire(name.drop_first());
        assert(valid_name(name.drop_first()));
        lemma_parse_name_frame(name.drop_first(), rest);
        assert(b =~= spec_label_wire(l) + (rest_wire + rest));
        assert(b[0] == enc.len() as u8);
        assert(w.len() == 1 + enc.len() + rest_wire.len());
        assert(b.subrange(1, 1 + b[0]) =~= enc);
        encode_utf8_valid_utf8(l);
        encode_utf8_decode_utf8(l);
        assert(b.skip(1 + b[0] as int) =~= rest_wire + rest);
        assert(decode_utf8(b.subrange(1, 1 + b[0])) == l);
        assert(spec_parse_name(b.skip(1 + b[0] as int)) == Ok::<_, DecodeError>(
            (name.drop_first(), rest_wire.len() as int),
        ));
        assert(seq![l] + name.drop_first() =~= name);
        assert(spec_parse_name(b) == Ok::<_, DecodeError>(
            (seq![decode_utf8(b.subrange(1, 1 + b[0]))] + name.drop_first(),
            1 + b[0] + rest_wire.len()),
        ));
        assert(seq![decode_utf8(b.subrange(1, 1 + b[0]))] + name.drop_first() == name);
        assert(1 + b[0] + rest_wire.len() == w.len());
        assert(spec_parse_name(b) == Ok::<_, DecodeError>((name, w.len() as int)));
    }
}

/// The wire form's length is the labels' byte count plus one length byte per
/// label plus the terminator.
pub proof fn lemma_name_wire_len(name: Seq<Seq<char>>)
    ensures
        spec_name_wire(name).len() == total_label_bytes(name) + name.len() + 1,
    decreases name.len(),
{
    if name.len() == 0 {
    } else {
        lemma_name_wire_len(name.drop_first());
        assert(spec_name_wire(name) =~= spec_label_wire(name[0]) + spec_name_wire(
            name.drop_first(),
        ));
    }
}

/// Name round trip: the wire form of any valid name parses back to exactly
/// those labels, consuming the whole form, whose length is the labels' byte
/// count plus one length byte per label plus the terminator.
pub proof fn lemma_name_round_trip(name: Seq<Seq<char>>)
    requires
        valid_name(name),
    ensures
        spec_parse_name(spec_name_wire(name)) == Ok::<_, DecodeError>(
            (name, spec_name_wire(name).len() as int),
        ),
        spec_name_wire(name).len() == total_label_bytes(name) + name.len() + 1,
{
    lemma_parse_name_frame(name, Seq::empty());
    assert(spec_name_wire(name) + Seq::<u8>::empty() =~= spec_name_wire(name));
    lemma_name_wire_len(name);
}

} // verus!
