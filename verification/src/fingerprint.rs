//! Content-addressed cache keys for translation requests.
//!
//! A fingerprint is `scope | id | sha256(text) | model | language-code`,
//! joined with `|`. Equal inputs always give equal keys; any change to a
//! component (for the text, any change to its digest) gives a different key,
//! so cache correctness is content-addressed rather than time-based.

use vstd::prelude::*;

use crate::chars::push_char;

verus! {

/// The SHA-256 digest of a byte sequence, named so that contracts can speak
/// of it; `sha256_digest` is the only function that produces it.
pub uninterp spec fn sha256_of(bytes: Seq<u8>) -> Seq<u8>;

/// Relies on sha2::Sha256 (SHA-256 of FIPS 180-4): the 32-byte digest is a
/// function of the input bytes alone.
#[verifier::external_body]
fn sha256_digest(data: &[u8]) -> (r: Vec<u8>)
    ensures
        r@ == sha256_of(data@),
        r@.len() == 32,
{
    <sha2::Sha256 as sha2::Digest>::digest(data).to_vec()
}

/// The lower-case hex digit for a value below sixteen.
pub open spec fn spec_hex_digit(n: int) -> char {
    if n == 0 {
        '0'
    } else if n == 1 {
        '1'
    } else if n == 2 {
        '2'
    } else if n == 3 {
        '3'
    } else if n == 4 {
        '4'
    } else if n == 5 {
        '5'
    } else if n == 6 {
        '6'
    } else if n == 7 {
        '7'
    } else if n == 8 {
        '8'
    } else if n == 9 {
        '9'
    } else if n == 10 {
        'a'
    } else if n == 11 {
        'b'
    } else if n == 12 {
        'c'
    } else if n == 13 {
        'd'
    } else if n == 14 {
        'e'
    } else {
        'f'
    }
}

pub(crate) fn hex_digit(n: u8) -> (c: char)
    requires
        n < 16,
    ensures
        c == spec_hex_digit(n as int),
{
    match n {
        0 => '0',
        1 => '1',
        2 => '2',
        3 => '3',
        4 => '4',
        5 => '5',
        6 => '6',
        7 => '7',
        8 => '8',
        9 => '9',
        10 => 'a',
        11 => 'b',
        12 => 'c',
        13 => 'd',
        14 => 'e',
        _ => 'f',
    }
}

/// Lower-case hex encoding of a byte sequence, two digits per byte.
pub open spec fn spec_to_hex(bytes: Seq<u8>) -> Seq<char>
    decreases bytes.len(),
{
    if bytes.len() == 0 {
        Seq::empty()
    } else {
        seq![
            spec_hex_digit(bytes.first() as int / 16),
            spec_hex_digit(bytes.first() as int % 16),
        ] + spec_to_hex(bytes.drop_first())
    }
}

pub proof fn lemma_to_hex_len(bytes: Seq<u8>)
    ensures
        spec_to_hex(bytes).len() == 2 * bytes.len(),
    decreases bytes.len(),
{
    if bytes.len() > 0 {
        lemma_to_hex_len(bytes.drop_first());
    }
}

fn to_hex(data: &Vec<u8>) -> (r: String)
    ensures
        r@ == spec_to_hex(data@),
{
    let mut r = String::new();
    let mut i: usize = 0;
    proof {
        assert(data@.skip(0) == data@);
    }
    while i < data.len()
        invariant
            i <= data@.len(),
            spec_to_hex(data@) == r@ + spec_to_hex(data@.skip(i as int)),
        decreases data@.len() - i,
    {
        let b = data[i];
        push_char(&mut r, hex_digit(b / 16));
        push_char(&mut r, hex_digit(b % 16));
        proof {
            assert(data@.skip(i as int).drop_first() =~= data@.skip(i + 1));
            assert(data@.skip(i as int).first() == data@[i as int]);
            assert(spec_to_hex(data@) =~= r@ + spec_to_hex(data@.skip(i + 1)));
        }
        i = i + 1;
    }
    proof {
        assert(data@.skip(i as int) =~= Seq::<u8>::empty());
        assert(r@ =~= spec_to_hex(data@));
    }
    r
}

/// The lower-case hex form of the SHA-256 digest of the text's UTF-8 bytes.
pub open spec fn spec_hash_text(text: Seq<char>) -> Seq<char> {
    spec_to_hex(sha256_of(vstd::utf8::encode_utf8(text)))
}

/// Hashes a sentence's source text for use inside a fingerprint.
pub fn hash_source_text(text: &str) -> (r: String)
    ensures
        r@ == spec_hash_text(text@),
{
    let digest = sha256_digest(text.as_bytes());
    to_hex(&digest)
}

/// The document scope encoded in a sentence id: the prefix up to the first
/// `:`, or the whole id when it has none.
pub open spec fn spec_doc_id(sid: Seq<char>) -> Seq<char>
    decreases sid.len(),
{
    if sid.len() == 0 {
        sid
    } else if sid.first() == ':' {
        Seq::empty()
    } else {
        seq![sid.first()] + spec_doc_id(sid.drop_first())
    }
}

proof fn lemma_doc_id_prefix(sid: Seq<char>, j: int)
    requires
        0 <= j <= sid.len(),
        forall|k: int| 0 <= k < j ==> sid[k] != ':',
        j == sid.len() || sid[j] == ':',
    ensures
        spec_doc_id(sid) == sid.subrange(0, j),
    decreases sid.len(),
{
    if sid.len() == 0 {
        assert(spec_doc_id(sid) =~= sid.subrange(0, j));
    } else if sid.first() == ':' {
        assert(j == 0);
        assert(spec_doc_id(sid) =~= sid.subrange(0, 0));
    } else {
        lemma_doc_id_prefix(sid.drop_first(), j - 1);
        assert(spec_doc_id(sid) =~= sid.subrange(0, j));
    }
}

/// Returns the document scope of a sentence id.
pub fn extract_doc_id(sid: &str) -> (r: String)
    ensures
        r@ == spec_doc_id(sid@),
{
    let n = sid.unicode_len();
    let mut j: usize = 0;
    while j < n && sid.get_char(j) != ':'
        invariant
            n == sid@.len(),
            j <= n,
            forall|k: int| 0 <= k < j ==> sid@[k] != ':',
        decreases n - j,
    {
        j = j + 1;
    }
    proof {
        lemma_doc_id_prefix(sid@, j as int);
    }
    sid.substring_char(0, j).to_owned()
}

/// A fingerprint assembled from its five rendered components.
pub open spec fn spec_fp_parts(
    scope: Seq<char>,
    sid: Seq<char>,
    hash: Seq<char>,
    model: Seq<char>,
    code: Seq<char>,
) -> Seq<char> {
    scope + seq!['|'] + sid + seq!['|'] + hash + seq!['|'] + model + seq!['|'] + code
}

/// The cache key for one sentence: scope, id, content hash, model and
/// target-language code, joined with `|`.
pub open spec fn spec_fingerprint(
    scope: Seq<char>,
    sid: Seq<char>,
    text: Seq<char>,
    model: Seq<char>,
    code: Seq<char>,
) -> Seq<char> {
    spec_fp_parts(scope, sid, spec_hash_text(text), model, code)
}

/// Computes the cache key for one sentence. Pure: equal inputs always give
/// equal keys.
pub fn fingerprint(scope: &str, sid: &str, text: &str, model: &str, code: &str) -> (r: String)
    ensures
        r@ == spec_fingerprint(scope@, sid@, text@, model@, code@),
{
    let hash = hash_source_text(text);
    let mut r = String::new();
    r.append(scope);
    push_char(&mut r, '|');
    r.append(sid);
    push_char(&mut r, '|');
    r.append(hash.as_str());
    push_char(&mut r, '|');
    r.append(model);
    push_char(&mut r, '|');
    r.append(code);
    proof {
        assert(r@ =~= spec_fingerprint(scope@, sid@, text@, model@, code@));
    }
    r
}

/// The fingerprint of a sentence as the orchestrator derives it: the scope
/// is read off the sentence id itself.
pub open spec fn spec_sentence_fingerprint(
    sid: Seq<char>,
    text: Seq<char>,
    model: Seq<char>,
    code: Seq<char>,
) -> Seq<char> {
    spec_fingerprint(spec_doc_id(sid), sid, text, model, code)
}

/// Computes the cache key of a sentence from its id, text, model and
/// target-language code.
pub fn sentence_fingerprint(sid: &str, text: &str, model: &str, code: &str) -> (r: String)
    ensures
        r@ == spec_sentence_fingerprint(sid@, text@, model@, code@),
{
    let scope = extract_doc_id(sid);
    fingerprint(scope.as_str(), sid, text, model, code)
}

proof fn lemma_mid_segment_distinct(a: Seq<char>, m1: Seq<char>, m2: Seq<char>, b: Seq<char>)
    requires
        m1 != m2,
    ensures
        a + m1 + b != a + m2 + b,
{
    if a + m1 + b == a + m2 + b {
        assert((a + m1 + b).len() == (a + m2 + b).len());
        assert(m1.len() == m2.len());
        assert forall|i: int| 0 <= i < m1.len() implies m1[i] == m2[i] by {
            assert((a + m1 + b)[a.len() + i] == m1[i]);
            assert((a + m2 + b)[a.len() + i] == m2[i]);
        }
        assert(m1 =~= m2);
    }
}

/// Law: a fingerprint is determined by its components, and changing any one
/// component while the others stay fixed changes the key. The content hash
/// stands for the text here; `lemma_fingerprint_text_sensitivity` carries
/// the claim down to the text itself.
pub proof fn lemma_fingerprint_sensitivity(
    scope1: Seq<char>,
    sid1: Seq<char>,
    hash1: Seq<char>,
    model1: Seq<char>,
    code1: Seq<char>,
    scope2: Seq<char>,
    sid2: Seq<char>,
    hash2: Seq<char>,
    model2: Seq<char>,
    code2: Seq<char>,
)
    ensures
        (scope1 == scope2 && sid1 == sid2 && hash1 == hash2 && model1 == model2 && code1
            == code2) ==> spec_fp_parts(scope1, sid1, hash1, model1, code1) == spec_fp_parts(
            scope2,
            sid2,
            hash2,
            model2,
            code2,
        ),
        (sid1 == sid2 && hash1 == hash2 && model1 == model2 && code1 == code2 && scope1 != scope2)
            ==> spec_fp_parts(scope1, sid1, hash1, model1, code1) != spec_fp_parts(
            scope2,
            sid2,
            hash2,
            model2,
            code2,
        ),
        (scope1 == scope2 && hash1 == hash2 && model1 == model2 && code1 == code2 && sid1 != sid2)
            ==> spec_fp_parts(scope1, sid1, hash1, model1, code1) != spec_fp_parts(
            scope2,
            sid2,
            hash2,
            model2,
            code2,
        ),
        (scope1 == scope2 && sid1 == sid2 && model1 == model2 && code1 == code2 && hash1 != hash2)
            ==> spec_fp_parts(scope1, sid1, hash1, model1, code1) != spec_fp_parts(
            scope2,
            sid2,
            hash2,
            model2,
            code2,
        ),
        (scope1 == scope2 && sid1 == sid2 && hash1 == hash2 && code1 == code2 && model1 != model2)
            ==> spec_fp_parts(scope1, sid1, hash1, model1, code1) != spec_fp_parts(
            scope2,
            sid2,
            hash2,
            model2,
            code2,
        ),
        (scope1 == scope2 && sid1 == sid2 && hash1 == hash2 && model1 == model2 && code1 != code2)
            ==> spec_fp_parts(scope1, sid1, hash1, model1, code1) != spec_fp_parts(
            scope2,
            sid2,
            hash2,
            model2,
            code2,
        ),
{
    let sep = seq!['|'];
    if sid1 == sid2 && hash1 == hash2 && model1 == model2 && code1 == code2 && scope1 != scope2 {
        lemma_mid_segment_distinct(
            Seq::empty(),
            scope1,
            scope2,
            sep + sid1 + sep + hash1 + sep + model1 + sep + code1,
        );
        assert(Seq::empty() + scope1 + (sep + sid1 + sep + hash1 + sep + model1 + sep + code1)
            =~= spec_fp_parts(scope1, sid1, hash1, model1, code1));
        assert(Seq::empty() + scope2 + (sep + sid1 + sep + hash1 + sep + model1 + sep + code1)
            =~= spec_fp_parts(scope2, sid2, hash2, model2, code2));
    }
    if scope1 == scope2 && hash1 == hash2 && model1 == model2 && code1 == code2 && sid1 != sid2 {
        lemma_mid_segment_distinct(
            scope1 + sep,
            sid1,
            sid2,
            sep + hash1 + sep + model1 + sep + code1,
        );
        assert(scope1 + sep + sid1 + (sep + hash1 + sep + model1 + sep + code1) =~= spec_fp_parts(
            scope1,
            sid1,
            hash1,
            model1,
            code1,
        ));
        assert(scope1 + sep + sid2 + (sep + hash1 + sep + model1 + sep + code1) =~= spec_fp_parts(
            scope2,
            sid2,
            hash2,
            model2,
            code2,
        ));
    }
    if scope1 == scope2 && sid1 == sid2 && model1 == model2 && code1 == code2 && hash1 != hash2 {
        lemma_mid_segment_distinct(
            scope1 + sep + sid1 + sep,
            hash1,
            hash2,
            sep + model1 + sep + code1,
        );
        assert(scope1 + sep + sid1 + sep + hash1 + (sep + model1 + sep + code1) =~= spec_fp_parts(
            scope1,
            sid1,
            hash1,
            model1,
            code1,
        ));
        assert(scope1 + sep + sid1 + sep + hash2 + (sep + model1 + sep + code1) =~= spec_fp_parts(
            scope2,
            sid2,
            hash2,
            model2,
            code2,
        ));
    }
    if scope1 == scope2 && sid1 == sid2 && hash1 == hash2 && code1 == code2 && model1 != model2 {
        lemma_mid_segment_distinct(
            scope1 + sep + sid1 + sep + hash1 + sep,
            model1,
            model2,
            sep + code1,
        );
        assert(scope1 + sep + sid1 + sep + hash1 + sep + model1 + (sep + code1) =~= spec_fp_parts(
            scope1,
            sid1,
            hash1,
            model1,
            code1,
        ));
        assert(scope1 + sep + sid1 + sep + hash1 + sep + model2 + (sep + code1) =~= spec_fp_parts(
            scope2,
            sid2,
            hash2,
            model2,
            code2,
        ));
    }
    if scope1 == scope2 && sid1 == sid2 && hash1 == hash2 && model1 == model2 && code1 != code2 {
        lemma_mid_segment_distinct(
            scope1 + sep + sid1 + sep + hash1 + sep + model1 + sep,
            code1,
            code2,
            Seq::empty(),
        );
        assert(scope1 + sep + sid1 + sep + hash1 + sep + model1 + sep + code1 + Seq::<
            char,
        >::empty() =~= spec_fp_parts(scope1, sid1, hash1, model1, code1));
        assert(scope1 + sep + sid1 + sep + hash1 + sep + model1 + sep + code2 + Seq::<
            char,
        >::empty() =~= spec_fp_parts(scope2, sid2, hash2, model2, code2));
    }
}

proof fn lemma_hex_injective(b1: Seq<u8>, b2: Seq<u8>)
    requires
        b1 != b2,
    ensures
        spec_to_hex(b1) != spec_to_hex(b2),
    decreases b1.len(),
{
    lemma_to_hex_len(b1);
    lemma_to_hex_len(b2);
    if b1.len() == b2.len() {
        assert(b1.len() > 0) by {
            if b1.len() == 0 {
                assert(b1 =~= b2);
            }
        }
        let x = b1.first();
        let y = b2.first();
        if x == y {
            assert(b1.drop_first() != b2.drop_first()) by {
                if b1.drop_first() == b2.drop_first() {
                    assert forall|i: int| 0 <= i < b1.len() implies b1[i] == b2[i] by {
                        if i > 0 {
                            assert(b1[i] == b1.drop_first()[i - 1]);
                            assert(b2[i] == b2.drop_first()[i - 1]);
                        }
                    }
                    assert(b1 =~= b2);
                }
            }
            lemma_hex_injective(b1.drop_first(), b2.drop_first());
            assert(spec_to_hex(b1)[2] == spec_to_hex(b1.drop_first())[0]);
            if spec_to_hex(b1) == spec_to_hex(b2) {
                assert forall|i: int| 0 <= i < spec_to_hex(b1.drop_first()).len() implies
                    spec_to_hex(b1.drop_first())[i] == spec_to_hex(b2.drop_first())[i] by {
                    assert(spec_to_hex(b1)[2 + i] == spec_to_hex(b1.drop_first())[i]);
                    assert(spec_to_hex(b2)[2 + i] == spec_to_hex(b2.drop_first())[i]);
                }
                assert(spec_to_hex(b1.drop_first()) =~= spec_to_hex(b2.drop_first()));
            }
        } else {
            assert(x / 16 != y / 16 || x % 16 != y % 16) by (bit_vector)
                requires
                    x != y,
            ;
            if x / 16 != y / 16 {
                assert(spec_to_hex(b1)[0] != spec_to_hex(b2)[0]);
            } else {
                assert(spec_to_hex(b1)[1] != spec_to_hex(b2)[1]);
            }
        }
    }
}

/// Law: two texts whose SHA-256 digests differ get different fingerprints,
/// all other components equal. (Texts whose digests collide are the one
/// family of inputs this cannot cover.)
pub proof fn lemma_fingerprint_text_sensitivity(
    scope: Seq<char>,
    sid: Seq<char>,
    text1: Seq<char>,
    text2: Seq<char>,
    model: Seq<char>,
    code: Seq<char>,
)
    requires
        sha256_of(vstd::utf8::encode_utf8(text1)) != sha256_of(vstd::utf8::encode_utf8(text2)),
    ensures
        spec_fingerprint(scope, sid, text1, model, code) != spec_fingerprint(
            scope,
            sid,
            text2,
            model,
            code,
        ),
{
    lemma_hex_injective(
        sha256_of(vstd::utf8::encode_utf8(text1)),
        sha256_of(vstd::utf8::encode_utf8(text2)),
    );
    lemma_fingerprint_sensitivity(
        scope,
        sid,
        spec_hash_text(text1),
        model,
        code,
        scope,
        sid,
        spec_hash_text(text2),
        model,
        code,
    );
}

} // verus!
