//! How peers meet and how the bytes of a file travel between them: a peer
//! names itself and is admitted or not; a file goes as a run of chunks that
//! an end mark closes.

use vstd::prelude::*;

verus! {

/// A piece of a file on its way.
#[derive(Debug, Clone, PartialEq, Eq)]
pub enum FileProtocol {
    /// Some bytes of the file, behind those sent before.
    Data(Vec<u8>),
    /// The file is complete.
    End,
}

/// The largest number of bytes that travel in one piece.
pub const CHUNK_SIZE: usize = 4096;

/// The bytes that a run of pieces brings, up to its end.
pub open spec fn assembled(pieces: Seq<FileProtocol>) -> Seq<u8>
    decreases pieces.len(),
{
    if pieces.len() == 0 {
        seq![]
    } else {
        match pieces.last() {
            FileProtocol::Data(bytes) => assembled(pieces.drop_last()) + bytes@,
            FileProtocol::End => assembled(pieces.drop_last()),
        }
    }
}

/// Whether a run of pieces is one file, whole: bytes, in pieces that are not
/// larger than allowed, and the end mark last and nowhere else.
pub open spec fn well_framed(pieces: Seq<FileProtocol>) -> bool {
    &&& pieces.len() > 0
    &&& pieces.last() is End
    &&& forall|i: int|
        0 <= i < pieces.len() - 1 ==> (#[trigger] pieces[i] matches FileProtocol::Data(bytes)
            && 0 < bytes@.len() <= CHUNK_SIZE)
}

/// Cuts the bytes of a file into the pieces that are sent.
pub fn frame_file(content: &[u8]) -> (pieces: Vec<FileProtocol>)
    ensures
        well_framed(pieces@),
        assembled(pieces@) == content@,
{
    let mut pieces: Vec<FileProtocol> = Vec::new();
    let mut start: usize = 0;
    assert(content@.take(0) =~= Seq::<u8>::empty());
    while start < content.len()
        invariant
            start <= content@.len(),
            assembled(pieces@) == content@.take(start as int),
            forall|i: int|
                0 <= i < pieces@.len() ==> (#[trigger] pieces@[i] matches FileProtocol::Data(bytes)
                    && 0 < bytes@.len() <= CHUNK_SIZE),
        decreases content@.len() - start,
    {
        let end = if content.len() - start > CHUNK_SIZE {
            start + CHUNK_SIZE
        } else {
            content.len()
        };
        let mut bytes: Vec<u8> = Vec::new();
        let mut i = start;
        while i < end
            invariant
                start <= i <= end <= content@.len(),
                bytes@ == content@.subrange(start as int, i as int),
            decreases end - i,
        {
            bytes.push(content[i]);
            assert(bytes@ =~= content@.subrange(start as int, i + 1));
            i += 1;
        }
        let ghost before = pieces@;
        pieces.push(FileProtocol::Data(bytes));
        proof {
            assert(pieces@.drop_last() =~= before);
            assert(content@.take(start as int) + content@.subrange(start as int, end as int)
                =~= content@.take(end as int));
        }
        start = end;
    }
    let ghost before = pieces@;
    pieces.push(FileProtocol::End);
    proof {
        assert(pieces@.drop_last() =~= before);
        assert(content@.take(content@.len() as int) =~= content@);
    }
    pieces
}

/// Puts the pieces of a file together as they arrive.
#[derive(Debug)]
pub struct FileAssembler {
    /// The bytes that have arrived.
    content: Vec<u8>,
    /// Whether the end mark has arrived.
    complete: bool,
}

impl FileAssembler {
    /// The bytes that have arrived.
    pub closed spec fn received(&self) -> Seq<u8> {
        self.content@
    }

    /// Whether the end mark has arrived.
    pub closed spec fn is_complete(&self) -> bool {
        self.complete
    }

    /// An assembler to which nothing has arrived.
    pub fn new() -> (assembler: FileAssembler)
        ensures
            assembler.received() == Seq::<u8>::empty(),
            !assembler.is_complete(),
    {
        FileAssembler { content: Vec::new(), complete: false }
    }

    /// Takes in a piece, and tells whether the file is complete. Bytes
    /// that come behind the end mark are dropped.
    pub fn push(&mut self, piece: FileProtocol) -> (complete: bool)
        ensures
            complete == final(self).is_complete(),
            final(self).is_complete() == (old(self).is_complete() || piece is End),
            final(self).received() == (if old(self).is_complete() {
                old(self).received()
            } else {
                old(self).received() + assembled(seq![piece])
            }),
    {
        proof {
            assert(seq![piece].drop_last() =~= Seq::<FileProtocol>::empty());
            assert(assembled(seq![piece].drop_last()) =~= Seq::<u8>::empty());
        }
        if !self.complete {
            match piece {
                FileProtocol::Data(bytes) => {
                    let mut bytes = bytes;
                    let ghost added = bytes@;
                    self.content.append(&mut bytes);
                    assert(Seq::<u8>::empty() + added =~= added);
                },
                FileProtocol::End => {
                    self.complete = true;
                    assert(self.content@ + Seq::<u8>::empty() =~= self.content@);
                },
            }
        }
        self.complete
    }

    /// The bytes of the file, once it is complete.
    pub fn finish(self) -> (content: Option<Vec<u8>>)
        ensures
            content is Some == self.is_complete(),
            content matches Some(bytes) ==> bytes@ == self.received(),
    {
        if self.complete {
            Some(self.content)
        } else {
            None
        }
    }
}

/// The bytes that an assembler has once a run of pieces has arrived, and
/// whether it is complete; `received` and `complete` are what it had before.
pub open spec fn taken(received: Seq<u8>, complete: bool, pieces: Seq<FileProtocol>) -> (
    Seq<u8>,
    bool,
)
    decreases pieces.len(),
{
    if pieces.len() == 0 {
        (received, complete)
    } else {
        let before = taken(received, complete, pieces.drop_last());
        if before.1 {
            before
        } else {
            (before.0 + assembled(seq![pieces.last()]), pieces.last() is End)
        }
    }
}

/// A file arrives as it was sent: a receiver that takes in, one by one, the
/// pieces into which a file was cut ends up complete, with exactly the bytes
/// of the file, whatever the file holds and however long it is.
pub proof fn law_file_arrives_whole(pieces: Seq<FileProtocol>)
    requires
        well_framed(pieces),
    ensures
        taken(seq![], false, pieces) == (assembled(pieces), true),
{
    lemma_taken_data(pieces.drop_last());
    assert(seq![pieces.last()].drop_last() =~= Seq::<FileProtocol>::empty());
    assert(assembled(seq![pieces.last()].drop_last()) =~= Seq::<u8>::empty());
    assert(assembled(pieces.drop_last()) + Seq::<u8>::empty() =~= assembled(pieces.drop_last()));
}

/// Pieces of data leave a receiver incomplete, with the bytes they bring.
pub proof fn lemma_taken_data(pieces: Seq<FileProtocol>)
    requires
        forall|i: int| 0 <= i < pieces.len() ==> (#[trigger] pieces[i]) is Data,
    ensures
        taken(seq![], false, pieces) == (assembled(pieces), false),
    decreases pieces.len(),
{
    if pieces.len() > 0 {
        lemma_taken_data(pieces.drop_last());
        assert(seq![pieces.last()].drop_last() =~= Seq::<FileProtocol>::empty());
        assert(assembled(seq![pieces.last()].drop_last()) =~= Seq::<u8>::empty());
        assert(pieces[pieces.len() - 1] is Data);
        match pieces.last() {
            FileProtocol::Data(bytes) => {
                assert(Seq::<u8>::empty() + bytes@ =~= bytes@);
            },
            FileProtocol::End => {},
        }
    }
}

/// What a peer says when it connects.
#[derive(Debug, PartialEq, Eq)]
pub enum RemoteEntityMessage {
    /// The peer tells the name under which it wants to be known.
    Welcome {
        /// The name.
        name: String,
    },
}

/// Who may connect to a scheduler.
#[derive(Debug, PartialEq, Eq)]
pub enum ConnectionPolicy {
    /// Everybody.
    Everybody,
    /// Those whose name is one of these.
    Only(Vec<String>),
}

impl ConnectionPolicy {
    /// Whether a peer of this name may connect.
    pub open spec fn allows(self, name: Seq<char>) -> bool {
        match self {
            ConnectionPolicy::Everybody => true,
            ConnectionPolicy::Only(names) => names.deep_view().contains(name),
        }
    }

    /// Whether a peer that announces itself with `message` is admitted.
    pub fn admits(&self, message: &RemoteEntityMessage) -> (admitted: bool)
        ensures
            admitted == self.allows(message->name@),
    {
        match self {
            ConnectionPolicy::Everybody => true,
            ConnectionPolicy::Only(names) => match message {
                RemoteEntityMessage::Welcome { name } => {
                    let mut i: usize = 0;
                    while i < names.len()
                        invariant
                            *self == ConnectionPolicy::Only(*names),
                            message->name == *name,
                            i <= names@.len(),
                            names.deep_view().len() == names@.len(),
                            forall|j: int| 0 <= j < i ==> names.deep_view()[j] != name@,
                        decreases names@.len() - i,
                    {
                        assert(names.deep_view()[i as int] == names@[i as int]@);
                        if names[i] == *name {
                            assert(names.deep_view()[i as int] == name@);
                            return true;
                        }
                        i += 1;
                    }
                    false
                },
            },
        }
    }
}

} // verus!
