//! The box-resolution arena: a lookup capability mapping an object
//! identifier to a read-only view of that object.
//!
//! A decoded tree references other on-chain objects only by identifier; a
//! separate, swappable arena resolves identifiers on demand at evaluation
//! time. This keeps decoded trees free of in-memory reference cycles and
//! lets a live node's indexed store and a fixed in-memory test fixture
//! satisfy the same contract. Lookups are side-effect-free: the result is a
//! function of the arena and the identifier alone, and an absent identifier
//! yields a distinct not-found outcome, never a default view.

use vstd::prelude::*;

use crate::expr::Constant;
use crate::scalar::encode_hex;

verus! {

/// Size in bytes of the content hash naming an on-chain object.
pub const DIGEST32_SIZE: usize = 32;

/// A box identifier: a fixed-size content hash naming an on-chain object.
#[derive(Debug, PartialEq, Eq)]
pub struct IrBoxId(pub [u8; 32]);

impl View for IrBoxId {
    type V = Seq<u8>;

    open spec fn view(&self) -> Seq<u8> {
        self.0@
    }
}

impl IrBoxId {
    /// Wraps a digest as a box identifier.
    pub fn new(id: [u8; 32]) -> (r: Self)
        ensures
            r@ == id@,
    {
        IrBoxId(id)
    }

    /// Resolves this identifier through an arena.
    pub fn get_box<'a, A: IrErgoBoxArena>(&self, arena: &'a A) -> (r: Result<
        &'a IrErgoBoxDummy,
        IrErgoBoxArenaError,
    >)
        ensures
            match r {
                Ok(b) => arena.spec_get(self@) == Some(*b),
                Err(_) => arena.spec_get(self@) is None,
            },
    {
        arena.get(self)
    }
}

/// Whether two box identifiers name the same object.
pub fn ids_equal(a: &IrBoxId, b: &IrBoxId) -> (r: bool)
    ensures
        r <==> a@ == b@,
{
    let mut i: usize = 0;
    while i < 32
        invariant
            i <= 32,
            forall|j: int| 0 <= j < i ==> a.0@[j] == b.0@[j],
        decreases 32 - i,
    {
        if a.0[i] != b.0[i] {
            assert(a@ != b@) by {
                assert(a.0@[i as int] != b.0@[i as int]);
            }
            return false;
        }
        i = i + 1;
    }
    proof {
        assert(a@ =~= b@);
    }
    true
}

/// The error yielded when an arena does not know an identifier.
#[derive(Debug, Clone, PartialEq, Eq)]
pub struct IrErgoBoxArenaError(pub String);

/// The lookup capability resolving a box identifier to a box view.
pub trait IrErgoBoxArena {
    /// The view this arena associates with an identifier, if any. Lookups
    /// are pure: the result depends on the arena and the identifier alone.
    spec fn spec_get(&self, id: Seq<u8>) -> Option<IrErgoBoxDummy>;

    /// Resolves `id`, failing with a not-found error exactly when the arena
    /// holds no view under it.
    fn get<'a>(&'a self, id: &IrBoxId) -> (r: Result<&'a IrErgoBoxDummy, IrErgoBoxArenaError>)
        ensures
            match r {
                Ok(b) => self.spec_get(id@) == Some(*b),
                Err(_) => self.spec_get(id@) is None,
            },
    ;
}

/// The read-only snapshot of one on-chain box that an evaluator may
/// inspect. Every accessor is a pure read of the view: each one is pinned to
/// the matching abstract field below, so an implementation cannot answer
/// with anything but the stored data.
pub trait IrErgoBox {
    /// The identifier digest of the view.
    spec fn spec_id(&self) -> Seq<u8>;

    /// The monetary value of the view.
    spec fn spec_value(&self) -> i64;

    /// The token list of the view.
    spec fn spec_tokens(&self) -> Seq<(Vec<i8>, i64)>;

    /// The additional-register list of the view.
    spec fn spec_registers(&self) -> Seq<Constant>;

    /// The inclusion height of the view.
    spec fn spec_creation_height(&self) -> i32;

    /// The guarding script bytes of the view.
    spec fn spec_script_bytes(&self) -> Seq<u8>;

    /// The identifier digest.
    fn id(&self) -> (r: &[u8; 32])
        ensures
            r@ == self.spec_id(),
    ;

    /// The monetary value.
    fn value(&self) -> (r: i64)
        ensures
            r == self.spec_value(),
    ;

    /// The ordered list of (token identifier, amount) pairs.
    fn tokens(&self) -> (r: &Vec<(Vec<i8>, i64)>)
        ensures
            r@ == self.spec_tokens(),
    ;

    /// R4-R9 optional registers, where the element with index 0 is R4.
    fn additional_registers(&self) -> (r: &Vec<Constant>)
        ensures
            r@ == self.spec_registers(),
    ;

    /// The register under index `id`: index 0 aliases the monetary value,
    /// indices 4 to 9 are the user-defined additional registers, and every
    /// other index holds nothing.
    fn get_register(&self, id: i8) -> (r: Option<Constant>)
        ensures
            id == 0 ==> r == Some(Constant::Long(self.spec_value())),
            4 <= id <= 9 && id - 4 < self.spec_registers().len() ==> r == Some(
                self.spec_registers()[id - 4],
            ),
            4 <= id <= 9 && id - 4 >= self.spec_registers().len() ==> r is None,
            !(id == 0 || 4 <= id <= 9) ==> r is None,
    ;

    /// The inclusion height of the box.
    fn creation_height(&self) -> (r: i32)
        ensures
            r == self.spec_creation_height(),
    ;

    /// The serialized guarding script.
    fn script_bytes(&self) -> (r: &Vec<u8>)
        ensures
            r@ == self.spec_script_bytes(),
    ;
}

/// A plain in-memory box view, used by the map-backed test arena.
#[derive(Debug, PartialEq, Eq)]
pub struct IrErgoBoxDummy {
    /// The identifier digest.
    pub id: IrBoxId,
    /// The monetary value.
    pub value: i64,
    /// The ordered list of (token identifier, amount) pairs.
    pub tokens: Vec<(Vec<i8>, i64)>,
    /// R4-R9 optional registers, where the element with index 0 is R4.
    pub additional_registers: Vec<Constant>,
    /// The inclusion height of the box.
    pub creation_height: i32,
    /// The serialized guarding script.
    pub script_bytes: Vec<u8>,
}

impl IrErgoBox for IrErgoBoxDummy {
    open spec fn spec_id(&self) -> Seq<u8> {
        self.id@
    }

    open spec fn spec_value(&self) -> i64 {
        self.value
    }

    open spec fn spec_tokens(&self) -> Seq<(Vec<i8>, i64)> {
        self.tokens@
    }

    open spec fn spec_registers(&self) -> Seq<Constant> {
        self.additional_registers@
    }

    open spec fn spec_creation_height(&self) -> i32 {
        self.creation_height
    }

    open spec fn spec_script_bytes(&self) -> Seq<u8> {
        self.script_bytes@
    }

    fn id(&self) -> (r: &[u8; 32]) {
        &self.id.0
    }

    fn value(&self) -> (r: i64) {
        self.value
    }

    fn tokens(&self) -> (r: &Vec<(Vec<i8>, i64)>) {
        &self.tokens
    }

    fn additional_registers(&self) -> (r: &Vec<Constant>) {
        &self.additional_registers
    }

    fn get_register(&self, id: i8) -> (r: Option<Constant>) {
        if id == 0 {
            Some(Constant::Long(self.value))
        } else if 4 <= id && id <= 9 {
            let k = (id - 4) as usize;
            if k < self.additional_registers.len() {
                Some(self.additional_registers[k])
            } else {
                None
            }
        } else {
            None
        }
    }

    fn creation_height(&self) -> (r: i32) {
        self.creation_height
    }

    fn script_bytes(&self) -> (r: &Vec<u8>) {
        &self.script_bytes
    }
}

/// What a sequence of (identifier, view) entries associates with `id`: the
/// first entry whose identifier matches, if any.
pub open spec fn arena_lookup(s: Seq<(IrBoxId, IrErgoBoxDummy)>, id: Seq<u8>) -> Option<
    IrErgoBoxDummy,
>
    decreases s.len(),
{
    if s.len() == 0 {
        None
    } else if s.first().0@ == id {
        Some(s.first().1)
    } else {
        arena_lookup(s.drop_first(), id)
    }
}

/// A map-backed arena over a fixed set of boxes, for deterministic testing.
/// It never mutates after construction, so it is shared freely. A
/// well-formed fixture holds one entry per identifier; were an identifier
/// ever repeated, lookup would take the first entry and the later ones
/// would be unreachable.
#[derive(Debug)]
pub struct IrErgoBoxDummyArena(pub Vec<(IrBoxId, IrErgoBoxDummy)>);

impl IrErgoBoxArena for IrErgoBoxDummyArena {
    open spec fn spec_get(&self, id: Seq<u8>) -> Option<IrErgoBoxDummy> {
        arena_lookup(self.0@, id)
    }

    fn get<'a>(&'a self, id: &IrBoxId) -> (r: Result<&'a IrErgoBoxDummy, IrErgoBoxArenaError>) {
        let ghost s = self.0@;
        let mut i: usize = 0;
        proof {
            assert(s.skip(0) =~= s);
        }
        while i < self.0.len()
            invariant
                s == self.0@,
                i <= s.len(),
                arena_lookup(s, id@) == arena_lookup(s.skip(i as int), id@),
            decreases s.len() - i,
        {
            proof {
                assert(s.skip(i as int).first() == s[i as int]);
                assert(s.skip(i as int).drop_first() =~= s.skip(i + 1));
            }
            if ids_equal(&self.0[i].0, id) {
                return Ok(&self.0[i].1);
            }
            i = i + 1;
        }
        proof {
            assert(s.skip(s.len() as int) =~= Seq::<(IrBoxId, IrErgoBoxDummy)>::empty());
        }
        let mut id_bytes: Vec<u8> = Vec::new();
        let mut j: usize = 0;
        while j < 32
            invariant
                j <= 32,
            decreases 32 - j,
        {
            id_bytes.push(id.0[j]);
            j = j + 1;
        }
        let mut msg = String::from_str("IrErgoBox with id ");
        let hex = encode_hex(&id_bytes);
        msg.append(hex.as_str());
        msg.append(" not found");
        Err(IrErgoBoxArenaError(msg))
    }
}

} // verus!
