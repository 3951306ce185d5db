//! Content-addressed identifiers of orbs.

use vstd::prelude::*;
use vstd::utf8::encode_utf8;

use crate::digits::{base36, decimal, decimal_text, encode_base36, lemma_decimal_digits};
use crate::sha256::{sha256, sha256_of};
use crate::text::{
    before_last, contains_char, contains_text, join, joined, rsplit_before, str_eq, texts,
};

verus! {

/// Identifier of an orb.
///
/// A generated identifier is `orb-` and base-36 digits of the SHA-256 digest of
/// `title|description|creator|created_at_nanos|nonce`, three to eight of them.
#[derive(Debug, Eq, Hash)]
pub struct OrbId(String);

impl View for OrbId {
    type V = Seq<char>;

    closed spec fn view(&self) -> Seq<char> {
        self.0@
    }
}

impl PartialEq for OrbId {
    fn eq(&self, other: &OrbId) -> (r: bool) {
        str_eq(self.0.as_str(), other.0.as_str())
    }
}

impl vstd::std_specs::cmp::PartialEqSpecImpl for OrbId {
    open spec fn obeys_eq_spec() -> bool {
        true
    }

    open spec fn eq_spec(&self, other: &OrbId) -> bool {
        self@ == other@
    }
}

impl Clone for OrbId {
    fn clone(&self) -> (r: OrbId)
        ensures
            r == *self,
    {
        OrbId(self.0.clone())
    }
}

/// The text that an identifier is hashed from.
pub open spec fn seed_text(
    title: Seq<char>,
    description: Seq<char>,
    creator: Seq<char>,
    created_at_nanos: u128,
    nonce: u8,
) -> Seq<char> {
    title + seq!['|'] + description + seq!['|'] + creator + seq!['|'] + decimal(
        created_at_nanos as nat,
    ) + seq!['|'] + decimal(nonce as nat)
}

/// The candidate identifier of `length` digits for one nonce.
pub open spec fn candidate_id(
    title: Seq<char>,
    description: Seq<char>,
    creator: Seq<char>,
    created_at_nanos: u128,
    nonce: u8,
    length: nat,
) -> Seq<char> {
    seq!['o', 'r', 'b', '-'] + base36(
        sha256(encode_utf8(seed_text(title, description, creator, created_at_nanos, nonce))),
        length,
    )
}

/// The first candidate that is not taken, from candidate number `k` on. The candidates
/// are tried length by length from three to eight, and nonce by nonce from zero to nine
/// within a length. Where all are taken it is the one of sixteen digits for nonce zero.
pub open spec fn first_free_id(
    title: Seq<char>,
    description: Seq<char>,
    creator: Seq<char>,
    created_at_nanos: u128,
    taken: Seq<Seq<char>>,
    k: nat,
) -> Seq<char>
    decreases 60 - k,
{
    if k >= 60 {
        candidate_id(title, description, creator, created_at_nanos, 0, 16)
    } else {
        let c = candidate_id(
            title,
            description,
            creator,
            created_at_nanos,
            (k % 10) as u8,
            3 + k / 10,
        );
        if taken.contains(c) {
            first_free_id(title, description, creator, created_at_nanos, taken, k + 1)
        } else {
            c
        }
    }
}

/// The digest that identifiers are taken from.
pub fn compute_hash(
    title: &str,
    description: &str,
    creator: &str,
    created_at_nanos: u128,
    nonce: u8,
) -> (digest: Vec<u8>)
    ensures
        digest@ == sha256(
            encode_utf8(seed_text(title@, description@, creator@, created_at_nanos, nonce)),
        ),
{
    let mut s = String::new();
    s.append(title);
    s.push('|');
    s.append(description);
    s.push('|');
    s.append(creator);
    s.push('|');
    let nanos = decimal_text(created_at_nanos);
    s.append(nanos.as_str());
    s.push('|');
    let n = decimal_text(nonce as u128);
    s.append(n.as_str());
    assert(s@ =~= seed_text(title@, description@, creator@, created_at_nanos, nonce));
    sha256_of(s.as_str().as_bytes())
}

/// `orb-` and base-36 digits of a digest.
fn id_from_digest(digest: &Vec<u8>, length: usize) -> (s: String)
    ensures
        s@ == seq!['o', 'r', 'b', '-'] + base36(digest@, length as nat),
{
    let mut s = String::new();
    s.push('o');
    s.push('r');
    s.push('b');
    s.push('-');
    let digits = encode_base36(digest.as_slice(), length);
    s.append(digits.as_str());
    assert(s@ =~= seq!['o', 'r', 'b', '-'] + base36(digest@, length as nat));
    s
}

impl OrbId {
    /// The identifier with the given text.
    pub fn from_raw(s: &str) -> (id: OrbId)
        ensures
            id@ == s@,
    {
        OrbId(s.to_owned())
    }

    /// The text of the identifier.
    pub fn as_str(&self) -> (s: &str)
        ensures
            s@ == self@,
    {
        self.0.as_str()
    }

    /// Generates an identifier that is not in `existing`.
    ///
    /// The identifier is taken from the SHA-256 digest of the fields, in base 36, three
    /// digits to begin with. On a collision the nonce goes up (0 to 9), then the length.
    pub fn generate(
        title: &str,
        description: &str,
        creator: &str,
        created_at_nanos: u128,
        existing: &Vec<String>,
    ) -> (id: OrbId)
        ensures
            id@ == first_free_id(
                title@,
                description@,
                creator@,
                created_at_nanos,
                texts(existing@),
                0,
            ),
    {
        let mut k: usize = 0;
        while k < 60
            invariant
                k <= 60,
                first_free_id(title@, description@, creator@, created_at_nanos, texts(existing@), 0)
                    == first_free_id(
                    title@,
                    description@,
                    creator@,
                    created_at_nanos,
                    texts(existing@),
                    k as nat,
                ),
            decreases 60 - k,
        {
            let nonce: u8 = (k % 10) as u8;
            let length: usize = 3 + k / 10;
            let digest = compute_hash(title, description, creator, created_at_nanos, nonce);
            let full_id = id_from_digest(&digest, length);
            if !contains_text(existing, full_id.as_str()) {
                return OrbId(full_id);
            }
            k += 1;
        }
        let digest = compute_hash(title, description, creator, created_at_nanos, 0);
        OrbId(id_from_digest(&digest, 16))
    }

    /// The identifier of the child with a sequential index: `orb-abc` and 1 give
    /// `orb-abc.1`.
    #[must_use]
    pub fn child(&self, index: u32) -> (id: OrbId)
        ensures
            id@ == self@.push('.') + decimal(index as nat),
    {
        let mut s = self.0.clone();
        s.push('.');
        let n = decimal_text(index as u128);
        s.append(n.as_str());
        OrbId(s)
    }

    /// Whether this is the identifier of a child: it holds a `.`.
    pub fn is_child(&self) -> (r: bool)
        ensures
            r == self@.contains('.'),
    {
        contains_char(self.0.as_str(), '.')
    }

    /// The part before the last `.`, or `None` for a root identifier.
    pub fn parent_id(&self) -> (r: Option<OrbId>)
        ensures
            match r {
                Some(p) => before_last(self@, '.') == Some(p@),
                None => before_last(self@, '.') is None,
            },
    {
        match rsplit_before(self.0.as_str(), '.') {
            Some(p) => Some(OrbId(p)),
            None => None,
        }
    }
}

/// The text that a content hash is taken from.
pub open spec fn content_text(
    title: Seq<char>,
    description: Seq<char>,
    design: Option<Seq<char>>,
    acceptance_criteria: Option<Seq<char>>,
    orb_type: Seq<char>,
    scope: Seq<Seq<char>>,
    priority: u8,
) -> Seq<char> {
    title + seq!['|'] + description + seq!['|'] + (match design {
        Some(d) => d,
        None => Seq::empty(),
    }) + seq!['|'] + (match acceptance_criteria {
        Some(a) => a,
        None => Seq::empty(),
    }) + seq!['|'] + orb_type + seq!['|'] + joined(scope, seq![',']) + seq!['|'] + decimal(
        priority as nat,
    )
}

/// The content hash of the given fields: twelve base-36 digits of a SHA-256 digest.
pub open spec fn content_hash_of(
    title: Seq<char>,
    description: Seq<char>,
    design: Option<Seq<char>>,
    acceptance_criteria: Option<Seq<char>>,
    orb_type: Seq<char>,
    scope: Seq<Seq<char>>,
    priority: u8,
) -> Seq<char> {
    base36(
        sha256(
            encode_utf8(
                content_text(
                    title,
                    description,
                    design,
                    acceptance_criteria,
                    orb_type,
                    scope,
                    priority,
                ),
            ),
        ),
        12,
    )
}

/// The text that an optional string slice holds.
pub open spec fn opt_str(o: Option<&str>) -> Option<Seq<char>> {
    match o {
        Some(s) => Some(s@),
        None => None,
    }
}

/// A hash of the fields that make up the content of an orb. Used to detect changes.
pub fn content_hash(
    title: &str,
    description: &str,
    design: Option<&str>,
    acceptance_criteria: Option<&str>,
    orb_type: &str,
    scope: &[String],
    priority: u8,
) -> (hash: String)
    ensures
        hash@ == content_hash_of(
            title@,
            description@,
            opt_str(design),
            opt_str(acceptance_criteria),
            orb_type@,
            texts(scope@),
            priority,
        ),
{
    let mut s = String::new();
    s.append(title);
    s.push('|');
    s.append(description);
    s.push('|');
    if let Some(d) = design {
        s.append(d);
    }
    s.push('|');
    if let Some(a) = acceptance_criteria {
        s.append(a);
    }
    s.push('|');
    s.append(orb_type);
    s.push('|');
    proof {
        reveal_strlit(",");
        assert(","@ =~= seq![',']);
    }
    let scope_joined = join(scope, ",");
    s.append(scope_joined.as_str());
    s.push('|');
    let p = decimal_text(priority as u128);
    s.append(p.as_str());
    assert(s@ =~= content_text(
        title@,
        description@,
        opt_str(design),
        opt_str(acceptance_criteria),
        orb_type@,
        texts(scope@),
        priority,
    ));
    let digest = sha256_of(s.as_str().as_bytes());
    encode_base36(digest.as_slice(), 12)
}

/// The child of an identifier is a child, its parent is that identifier, and children
/// with different indices are different.
pub proof fn law_child_parent(parent: Seq<char>, index: u32, other: u32)
    ensures
        (parent.push('.') + decimal(index as nat)).contains('.'),
        before_last(parent.push('.') + decimal(index as nat), '.') == Some(parent),
        parent.push('.') + decimal(index as nat) == parent.push('.') + decimal(other as nat)
            ==> index == other,
{
    let c = parent.push('.') + decimal(index as nat);
    assert(c[parent.len() as int] == '.');
    lemma_decimal_digits(index as nat);
    assert(!decimal(index as nat).contains('.'));
    crate::text::lemma_before_last_append(parent, '.', decimal(index as nat));
    if c == parent.push('.') + decimal(other as nat) {
        let d = parent.push('.') + decimal(other as nat);
        let n = parent.len() + 1;
        assert(c.skip(n as int) =~= decimal(index as nat));
        assert(d.skip(n as int) =~= decimal(other as nat));
        crate::digits::lemma_decimal_injective(index as nat, other as nat);
    }
}

/// An identifier has a parent exactly if it is a child.
pub proof fn law_parent_exists(id: Seq<char>)
    ensures
        before_last(id, '.') is Some <==> id.contains('.'),
{
    crate::text::lemma_before_last(id, '.');
}

/// A generated identifier starts with `orb-`.
pub proof fn law_generated_prefix(
    title: Seq<char>,
    description: Seq<char>,
    creator: Seq<char>,
    created_at_nanos: u128,
    taken: Seq<Seq<char>>,
    k: nat,
)
    ensures
        first_free_id(title, description, creator, created_at_nanos, taken, k).take(4) == seq![
            'o',
            'r',
            'b',
            '-',
        ],
        first_free_id(title, description, creator, created_at_nanos, taken, k).len() <= 20,
    decreases 60 - k,
{
    let id = first_free_id(title, description, creator, created_at_nanos, taken, k);
    if k >= 60 {
        assert(id.take(4) =~= seq!['o', 'r', 'b', '-']);
    } else {
        law_generated_prefix(title, description, creator, created_at_nanos, taken, k + 1);
        assert(id.take(4) =~= seq!['o', 'r', 'b', '-']);
    }
}

/// A generated identifier is not taken, unless every candidate of up to eight digits is.
pub proof fn law_generated_is_free(
    title: Seq<char>,
    description: Seq<char>,
    creator: Seq<char>,
    created_at_nanos: u128,
    taken: Seq<Seq<char>>,
    k: nat,
)
    requires
        taken.contains(first_free_id(title, description, creator, created_at_nanos, taken, k)),
    ensures
        forall|j: nat|
            k <= j < 60 ==> taken.contains(
                #[trigger] candidate_id(
                    title,
                    description,
                    creator,
                    created_at_nanos,
                    (j % 10) as u8,
                    3 + j / 10,
                ),
            ),
    decreases 60 - k,
{
    if k < 60 {
        law_generated_is_free(title, description, creator, created_at_nanos, taken, k + 1);
    }
}

/// Parts with a separator between each two of them, one part more.
proof fn lemma_joined_push(parts: Seq<Seq<char>>, sep: Seq<char>, last: Seq<char>)
    requires
        parts.len() > 0,
    ensures
        joined(parts.push(last), sep) == joined(parts, sep) + sep + last,
{
    assert(parts.push(last).drop_last() =~= parts);
}

/// The text that an identifier is hashed from holds the title, the description, the creator, the
/// time and the nonce, with bars between them.
pub proof fn law_seed_text(
    title: Seq<char>,
    description: Seq<char>,
    creator: Seq<char>,
    created_at_nanos: u128,
    nonce: u8,
)
    ensures
        seed_text(title, description, creator, created_at_nanos, nonce) == joined(
            seq![
                title,
                description,
                creator,
                decimal(created_at_nanos as nat),
                decimal(nonce as nat),
            ],
            seq!['|'],
        ),
{
    let bar = seq!['|'];
    let nanos = decimal(created_at_nanos as nat);
    let n = decimal(nonce as nat);
    assert(joined(seq![title], bar) == title);
    lemma_joined_push(seq![title], bar, description);
    lemma_joined_push(seq![title].push(description), bar, creator);
    lemma_joined_push(seq![title].push(description).push(creator), bar, nanos);
    lemma_joined_push(seq![title].push(description).push(creator).push(nanos), bar, n);
    assert(seq![title, description, creator, nanos, n] =~= seq![title].push(description).push(
        creator,
    ).push(nanos).push(n));
}

/// The text that a content hash is taken from holds the seven parts of the content, with bars
/// between them; what is not there counts as empty, and scopes have commas between them.
pub proof fn law_content_text(
    title: Seq<char>,
    description: Seq<char>,
    design: Option<Seq<char>>,
    acceptance_criteria: Option<Seq<char>>,
    orb_type: Seq<char>,
    scope: Seq<Seq<char>>,
    priority: u8,
)
    ensures
        content_text(title, description, design, acceptance_criteria, orb_type, scope, priority)
            == joined(
            seq![
                title,
                description,
                if design is Some {
                    design->0
                } else {
                    Seq::empty()
                },
                if acceptance_criteria is Some {
                    acceptance_criteria->0
                } else {
                    Seq::empty()
                },
                orb_type,
                joined(scope, seq![',']),
                decimal(priority as nat),
            ],
            seq!['|'],
        ),
        content_hash_of(title, description, design, acceptance_criteria, orb_type, scope, priority)
            == base36(
            sha256(
                encode_utf8(
                    content_text(
                        title,
                        description,
                        design,
                        acceptance_criteria,
                        orb_type,
                        scope,
                        priority,
                    ),
                ),
            ),
            12,
        ),
{
    let bar = seq!['|'];
    let d: Seq<char> = if design is Some {
        design->0
    } else {
        Seq::empty()
    };
    let a: Seq<char> = if acceptance_criteria is Some {
        acceptance_criteria->0
    } else {
        Seq::empty()
    };
    let s = joined(scope, seq![',']);
    let p = decimal(priority as nat);
    let t1 = seq![title];
    let t2 = t1.push(description);
    let t3 = t2.push(d);
    let t4 = t3.push(a);
    let t5 = t4.push(orb_type);
    let t6 = t5.push(s);
    assert(joined(t1, bar) == title);
    lemma_joined_push(t1, bar, description);
    lemma_joined_push(t2, bar, d);
    lemma_joined_push(t3, bar, a);
    lemma_joined_push(t4, bar, orb_type);
    lemma_joined_push(t5, bar, s);
    lemma_joined_push(t6, bar, p);
    assert(seq![title, description, d, a, orb_type, s, p] =~= t6.push(p));
}

/// A generated identifier is `orb-` and base-36 digits of the digest of the fields and a nonce.
/// It has the fewest digits, three to eight, and for those the lowest nonce, zero to nine, for
/// which it is not taken: every candidate with fewer digits or a lower nonce is. Where all are
/// taken it has sixteen digits.
pub proof fn law_generated_in_turn(
    title: Seq<char>,
    description: Seq<char>,
    creator: Seq<char>,
    created_at_nanos: u128,
    taken: Seq<Seq<char>>,
    digits: nat,
    nonce: u8,
)
    requires
        3 <= digits <= 8,
        nonce <= 9,
        !taken.contains(
            "orb-"@ + base36(
                sha256(
                    encode_utf8(
                        seed_text(title, description, creator, created_at_nanos, nonce),
                    ),
                ),
                digits,
            ),
        ),
        forall|d: nat, n: u8|
            3 <= d <= 8 && n <= 9 && (d < digits || (d == digits && n < nonce)) ==> taken.contains(
                "orb-"@ + #[trigger] base36(
                    sha256(
                        encode_utf8(seed_text(title, description, creator, created_at_nanos, n)),
                    ),
                    d,
                ),
            ),
    ensures
        first_free_id(title, description, creator, created_at_nanos, taken, 0) == "orb-"@ + base36(
            sha256(
                encode_utf8(seed_text(title, description, creator, created_at_nanos, nonce)),
            ),
            digits,
        ),
{
    reveal_strlit("orb-");
    assert("orb-"@ =~= seq!['o', 'r', 'b', '-']);
    let k = ((digits - 3) * 10 + nonce) as nat;
    lemma_in_turn(title, description, creator, created_at_nanos, taken, digits, nonce, k, 0);
}

/// The candidates before one that is free are passed over where they are taken.
proof fn lemma_in_turn(
    title: Seq<char>,
    description: Seq<char>,
    creator: Seq<char>,
    created_at_nanos: u128,
    taken: Seq<Seq<char>>,
    digits: nat,
    nonce: u8,
    k: nat,
    j: nat,
)
    requires
        3 <= digits <= 8,
        nonce <= 9,
        k == (digits - 3) * 10 + nonce,
        j <= k,
        !taken.contains(
            candidate_id(title, description, creator, created_at_nanos, nonce, digits),
        ),
        forall|d: nat, n: u8|
            3 <= d <= 8 && n <= 9 && (d < digits || (d == digits && n < nonce)) ==> taken.contains(
                "orb-"@ + #[trigger] base36(
                    sha256(
                        encode_utf8(seed_text(title, description, creator, created_at_nanos, n)),
                    ),
                    d,
                ),
            ),
        "orb-"@ == seq!['o', 'r', 'b', '-'],
    ensures
        first_free_id(title, description, creator, created_at_nanos, taken, j) == candidate_id(
            title,
            description,
            creator,
            created_at_nanos,
            nonce,
            digits,
        ),
    decreases k - j,
{
    if j < k {
        let d: nat = 3 + j / 10;
        let n: u8 = (j % 10) as u8;
        assert(d < digits || (d == digits && n < nonce));
        let b = base36(
            sha256(encode_utf8(seed_text(title, description, creator, created_at_nanos, n))),
            d,
        );
        assert(taken.contains("orb-"@ + b));
        lemma_in_turn(
            title,
            description,
            creator,
            created_at_nanos,
            taken,
            digits,
            nonce,
            k,
            j + 1,
        );
    } else {
        assert(k % 10 == nonce && k / 10 == digits - 3);
    }
}

/// Where all candidates of three to eight digits are taken the identifier has sixteen digits.
pub proof fn law_generated_last(
    title: Seq<char>,
    description: Seq<char>,
    creator: Seq<char>,
    created_at_nanos: u128,
    taken: Seq<Seq<char>>,
    k: nat,
)
    requires
        k <= 60,
        forall|d: nat, n: u8|
            3 <= d <= 8 && n <= 9 ==> taken.contains(
                seq!['o', 'r', 'b', '-'] + #[trigger] base36(
                    sha256(
                        encode_utf8(seed_text(title, description, creator, created_at_nanos, n)),
                    ),
                    d,
                ),
            ),
    ensures
        first_free_id(title, description, creator, created_at_nanos, taken, k) == seq![
            'o',
            'r',
            'b',
            '-',
        ] + base36(
            sha256(encode_utf8(seed_text(title, description, creator, created_at_nanos, 0))),
            16,
        ),
    decreases 60 - k,
{
    if k < 60 {
        let d: nat = 3 + k / 10;
        let n: u8 = (k % 10) as u8;
        let b = base36(
            sha256(encode_utf8(seed_text(title, description, creator, created_at_nanos, n))),
            d,
        );
        assert(taken.contains(seq!['o', 'r', 'b', '-'] + b));
        law_generated_last(title, description, creator, created_at_nanos, taken, k + 1);
    }
}

} // verus!
