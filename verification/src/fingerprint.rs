//! Content fingerprints: the MD5 digest of a file's bytes, taken chunk by
//! chunk and written as lowercase hexadecimal text.

use vstd::prelude::*;

verus! {

#[verifier::external_type_specification]
#[verifier::external_body]
pub struct ExContext(md5::Context);

/// The bytes that a digest context has consumed so far, in order.
pub uninterp spec fn consumed(context: md5::Context) -> Seq<u8>;

/// The sixteen bytes of the MD5 digest of `content`.
pub uninterp spec fn md5_digest(content: Seq<u8>) -> Seq<u8>;

/// `md5::Context::new`: a fresh context has consumed nothing.
#[verifier::external_body]
fn context_new() -> (context: md5::Context)
    ensures
        consumed(context) == Seq::<u8>::empty(),
{
    md5::Context::new()
}

/// `md5::Context::consume`: the context has consumed `data` after what it
/// had consumed before. The call accepts every slice.
#[verifier::external_body]
fn context_consume(context: &mut md5::Context, data: &[u8])
    ensures
        consumed(*final(context)) == consumed(*old(context)) + data@,
{
    context.consume(data)
}

/// `md5::Context::compute`: the digest of all that the context has consumed.
/// It depends on those bytes alone, not on how they were cut into chunks.
#[verifier::external_body]
fn context_compute(context: md5::Context) -> (digest: [u8; 16])
    ensures
        digest@ == md5_digest(consumed(context)),
{
    context.compute().0
}

/// The sixteen hexadecimal digits, lowercase.
pub open spec fn hex_digit(n: int) -> char {
    seq!['0', '1', '2', '3', '4', '5', '6', '7', '8', '9', 'a', 'b', 'c', 'd', 'e', 'f'][n]
}

/// Bytes as lowercase hexadecimal text, two digits for each byte.
pub open spec fn hex_text(bytes: Seq<u8>) -> Seq<char>
    decreases bytes.len(),
{
    if bytes.len() == 0 {
        Seq::empty()
    } else {
        hex_text(bytes.drop_last()).push(hex_digit(bytes.last() as int / 16)).push(
            hex_digit(bytes.last() as int % 16),
        )
    }
}

/// The fingerprint of a file's content: its MD5 digest as lowercase
/// hexadecimal text.
pub open spec fn fingerprint_of(content: Seq<u8>) -> Seq<char> {
    hex_text(md5_digest(content))
}

/// Hexadecimal text has two characters for each byte.
pub proof fn hex_text_len(bytes: Seq<u8>)
    ensures
        hex_text(bytes).len() == 2 * bytes.len(),
    decreases bytes.len(),
{
    if bytes.len() > 0 {
        hex_text_len(bytes.drop_last());
    }
}

/// Hexadecimal text holds nothing but the digits `0` to `9` and the
/// lowercase letters `a` to `f`.
pub proof fn hex_text_is_lowercase(bytes: Seq<u8>, i: int)
    requires
        0 <= i < hex_text(bytes).len(),
    ensures
        exists|n: int| 0 <= n < 16 && hex_text(bytes)[i] == #[trigger] hex_digit(n),
    decreases bytes.len(),
{
    hex_text_len(bytes);
    hex_text_len(bytes.drop_last());
    let last = bytes.last() as int;
    if i == hex_text(bytes).len() - 1 {
        assert(hex_text(bytes)[i] == hex_digit(last % 16));
    } else if i == hex_text(bytes).len() - 2 {
        assert(hex_text(bytes)[i] == hex_digit(last / 16));
    } else {
        hex_text_is_lowercase(bytes.drop_last(), i);
    }
}

fn hex_digit_text(n: u8) -> (text: &'static str)
    requires
        n < 16,
    ensures
        text@ == seq![hex_digit(n as int)],
{
    proof {
        reveal_strlit("0");
        reveal_strlit("1");
        reveal_strlit("2");
        reveal_strlit("3");
        reveal_strlit("4");
        reveal_strlit("5");
        reveal_strlit("6");
        reveal_strlit("7");
        reveal_strlit("8");
        reveal_strlit("9");
        reveal_strlit("a");
        reveal_strlit("b");
        reveal_strlit("c");
        reveal_strlit("d");
        reveal_strlit("e");
        reveal_strlit("f");
    }
    let text = match n {
        0 => "0",
        1 => "1",
        2 => "2",
        3 => "3",
        4 => "4",
        5 => "5",
        6 => "6",
        7 => "7",
        8 => "8",
        9 => "9",
        10 => "a",
        11 => "b",
        12 => "c",
        13 => "d",
        14 => "e",
        _ => "f",
    };
    assert(text@ =~= seq![hex_digit(n as int)]);
    text
}

/// Writes bytes as lowercase hexadecimal text.
pub fn to_hex(bytes: &[u8]) -> (text: String)
    ensures
        text@ == hex_text(bytes@),
{
    let mut text = String::new();
    let mut i: usize = 0;
    while i < bytes.len()
        invariant
            i <= bytes.len(),
            text@ == hex_text(bytes@.take(i as int)),
        decreases bytes.len() - i,
    {
        let byte = bytes[i];
        proof {
            let next = bytes@.take(i + 1);
            assert(next.drop_last() =~= bytes@.take(i as int));
            assert(next.last() == byte);
        }
        let ghost before = text@;
        text.append(hex_digit_text(byte / 16));
        text.append(hex_digit_text(byte % 16));
        proof {
            assert(text@ =~= before.push(hex_digit(byte as int / 16)).push(
                hex_digit(byte as int % 16),
            ));
        }
        i = i + 1;
    }
    proof {
        assert(bytes@.take(bytes@.len() as int) =~= bytes@);
    }
    text
}

/// A fingerprint in the making. It takes a file's bytes chunk by chunk and
/// holds no more than the digest's state.
pub struct Fingerprinter {
    context: md5::Context,
    any: bool,
}

/// The fingerprint that belongs to a content: none for the empty content,
/// which has nothing to compare.
pub open spec fn fingerprint_for(content: Seq<u8>) -> Option<Seq<char>> {
    if content.len() == 0 {
        None
    } else {
        Some(fingerprint_of(content))
    }
}

impl Fingerprinter {
    #[verifier::type_invariant]
    spec fn knows_whether_empty(&self) -> bool {
        self.any == (consumed(self.context).len() > 0)
    }

    /// The bytes taken so far.
    pub closed spec fn content(&self) -> Seq<u8> {
        consumed(self.context)
    }

    /// A fingerprinter that has taken nothing yet.
    pub fn new() -> (fresh: Fingerprinter)
        ensures
            fresh.content() == Seq::<u8>::empty(),
    {
        Fingerprinter { context: context_new(), any: false }
    }

    /// Takes the next chunk of the file.
    pub fn consume(self, chunk: &[u8]) -> (next: Fingerprinter)
        ensures
            next.content() == self.content() + chunk@,
    {
        proof {
            use_type_invariant(&self);
        }
        let mut context = self.context;
        context_consume(&mut context, chunk);
        Fingerprinter { context, any: self.any || chunk.len() > 0 }
    }

    /// The fingerprint of all that was taken: thirty-two hexadecimal digits,
    /// or none where no byte was taken.
    pub fn finish(self) -> (fingerprint: Option<String>)
        ensures
            match fingerprint {
                Some(hex) => fingerprint_for(self.content()) == Some(hex@) && hex@.len() == 32,
                None => fingerprint_for(self.content()) is None,
            },
    {
        proof {
            use_type_invariant(&self);
        }
        if self.any {
            let digest = context_compute(self.context);
            proof {
                hex_text_len(digest@);
            }
            Some(to_hex(digest.as_slice()))
        } else {
            None
        }
    }
}

/// What one read of an open file gave.
#[derive(Clone, Debug, PartialEq, Eq)]
pub enum ReadOutcome {
    /// The bytes that were read. An empty chunk is the end of the file.
    Chunk(Vec<u8>),
    /// The read failed, for the cause given.
    Failed(String),
}

/// Why a file has no fingerprint.
#[derive(Clone, Debug, PartialEq, Eq)]
pub enum FingerprintError {
    /// A read failed in the middle of the file. The text names the cause.
    Io(String),
}

impl FingerprintError {
    /// The error as text.
    pub fn message(&self) -> (text: String)
        ensures
            self matches FingerprintError::Io(m) && text@ == m@,
    {
        match self {
            FingerprintError::Io(m) => m.clone(),
        }
    }
}

/// The text of the error for a read that failed.
pub open spec fn failure_message(cause: Seq<char>) -> Seq<char> {
    "I/O reading file: "@ + cause
}

/// Where fingerprinting stands after a read.
pub enum Step {
    /// The file goes on: read again.
    More(Fingerprinter),
    /// The file is done: with its fingerprint, with none for an empty file,
    /// or with the read's failure.
    Done(Result<Option<String>, FingerprintError>),
}

/// What the reads of one open file come to, after `seen` was taken: the
/// fingerprint for all bytes up to the first empty chunk, or the error of the
/// first failed read where that comes earlier. Where the reads run out, the
/// file ends.
pub open spec fn outcome_of_reads(reads: Seq<ReadOutcome>, seen: Seq<u8>) -> Result<
    Option<Seq<char>>,
    Seq<char>,
>
    decreases reads.len(),
{
    if reads.len() == 0 {
        Ok(fingerprint_for(seen))
    } else {
        match reads[0] {
            ReadOutcome::Failed(cause) => Err(failure_message(cause@)),
            ReadOutcome::Chunk(bytes) => if bytes@.len() == 0 {
                Ok(fingerprint_for(seen))
            } else {
                outcome_of_reads(reads.drop_first(), seen + bytes@)
            },
        }
    }
}

/// All bytes of the chunks, in order.
pub open spec fn content_of(chunks: Seq<Vec<u8>>) -> Seq<u8>
    decreases chunks.len(),
{
    if chunks.len() == 0 {
        Seq::empty()
    } else {
        chunks[0]@ + content_of(chunks.drop_first())
    }
}

/// Successful reads of the given chunks, one read for each.
pub open spec fn reads_of(chunks: Seq<Vec<u8>>) -> Seq<ReadOutcome> {
    Seq::new(chunks.len(), |i: int| ReadOutcome::Chunk(chunks[i]))
}

/// The outcome as the result of fingerprinting: the texts of `result` are
/// those of `outcome`.
pub open spec fn is_outcome(
    result: Result<Option<String>, FingerprintError>,
    outcome: Result<Option<Seq<char>>, Seq<char>>,
) -> bool {
    match outcome {
        Ok(Some(hex)) => result matches Ok(Some(text)) && text@ == hex,
        Ok(None) => result matches Ok(None),
        Err(message) => result matches Err(FingerprintError::Io(m)) && m@ == message,
    }
}

impl Fingerprinter {
    /// Decides what follows a read: an empty chunk ends the file and gives
    /// the fingerprint for what was taken, any other chunk is taken and the
    /// file goes on, and a failed read ends the file with an error that
    /// names the cause.
    pub fn advance(self, outcome: &ReadOutcome) -> (step: Step)
        ensures
            match *outcome {
                ReadOutcome::Failed(cause) => step matches Step::Done(
                    Err(FingerprintError::Io(m)),
                ) && m@ == failure_message(cause@),
                ReadOutcome::Chunk(bytes) => if bytes@.len() == 0 {
                    step matches Step::Done(done) && is_outcome(
                        done,
                        Ok(fingerprint_for(self.content())),
                    )
                } else {
                    step matches Step::More(next) && next.content() == self.content() + bytes@
                },
            },
    {
        match outcome {
            ReadOutcome::Failed(cause) => {
                let mut text = String::from_str("I/O reading file: ");
                text.append(cause.as_str());
                Step::Done(Err(FingerprintError::Io(text)))
            },
            ReadOutcome::Chunk(bytes) => {
                if bytes.len() == 0 {
                    Step::Done(Ok(self.finish()))
                } else {
                    Step::More(self.consume(bytes.as_slice()))
                }
            },
        }
    }
}

/// Fingerprints a file from what opening and reading it gave. `None` stands
/// for a file that could not be opened: it has no fingerprint, which is no
/// error. Otherwise `file` holds the outcome of each read in turn: the
/// fingerprint covers all bytes up to the first empty chunk, and a failed read
/// before that is an error. A file without bytes has no fingerprint either.
pub fn compute_md5(file: Option<&Vec<ReadOutcome>>) -> (result: Result<
    Option<String>,
    FingerprintError,
>)
    ensures
        match file {
            None => result == Ok::<Option<String>, FingerprintError>(None),
            Some(reads) => is_outcome(result, outcome_of_reads(reads@, Seq::empty())),
        },
{
    let reads = match file {
        None => {
            return Ok(None);
        },
        Some(reads) => reads,
    };
    let mut state = Fingerprinter::new();
    let mut i: usize = 0;
    proof {
        assert(reads@.skip(0) =~= reads@);
    }
    while i < reads.len()
        invariant
            file == Some(reads),
            i <= reads.len(),
            outcome_of_reads(reads@, Seq::empty()) == outcome_of_reads(
                reads@.skip(i as int),
                state.content(),
            ),
        decreases reads.len() - i,
    {
        proof {
            assert(reads@.skip(i as int)[0] == reads@[i as int]);
            assert(reads@.skip(i as int).drop_first() =~= reads@.skip(i + 1));
        }
        match state.advance(&reads[i]) {
            Step::More(next) => {
                state = next;
            },
            Step::Done(done) => {
                return done;
            },
        }
        i = i + 1;
    }
    Ok(state.finish())
}

/// The outcome of reads that all succeed with a chunk that is not empty is
/// the fingerprint for what was seen before and their bytes together.
pub proof fn outcome_of_chunks(chunks: Seq<Vec<u8>>, seen: Seq<u8>)
    requires
        forall|i: int| 0 <= i < chunks.len() ==> (#[trigger] chunks[i])@.len() > 0,
    ensures
        outcome_of_reads(reads_of(chunks), seen) == Ok::<Option<Seq<char>>, Seq<char>>(
            fingerprint_for(seen + content_of(chunks)),
        ),
    decreases chunks.len(),
{
    if chunks.len() == 0 {
        assert(seen + content_of(chunks) =~= seen);
    } else {
        let rest = chunks.drop_first();
        assert(reads_of(chunks).drop_first() =~= reads_of(rest));
        assert forall|i: int| 0 <= i < rest.len() implies (#[trigger] rest[i])@.len() > 0 by {
            assert(rest[i] == chunks[i + 1]);
        }
        outcome_of_chunks(rest, seen + chunks[0]@);
        assert(seen + chunks[0]@ + content_of(rest) =~= seen + content_of(chunks));
    }
}

/// The fingerprint depends on the content alone: however the same bytes are
/// cut into chunks, the outcome is the same, and it is never an error. The
/// empty content has no fingerprint; any other content has one.
pub proof fn fingerprint_is_deterministic(first: Seq<Vec<u8>>, second: Seq<Vec<u8>>)
    requires
        forall|i: int| 0 <= i < first.len() ==> (#[trigger] first[i])@.len() > 0,
        forall|i: int| 0 <= i < second.len() ==> (#[trigger] second[i])@.len() > 0,
        content_of(first) == content_of(second),
    ensures
        outcome_of_reads(reads_of(first), Seq::empty()) == outcome_of_reads(
            reads_of(second),
            Seq::empty(),
        ),
        outcome_of_reads(reads_of(first), Seq::empty()) == Ok::<Option<Seq<char>>, Seq<char>>(
            fingerprint_for(content_of(first)),
        ),
        content_of(first).len() == 0 <==> outcome_of_reads(reads_of(first), Seq::empty()) == Ok::<
            Option<Seq<char>>,
            Seq<char>,
        >(None),
{
    outcome_of_chunks(first, Seq::empty());
    outcome_of_chunks(second, Seq::empty());
    assert(Seq::<u8>::empty() + content_of(first) =~= content_of(first));
}

} // verus!
