//! The archive under construction: a ZIP writer over a buffer in memory, and
//! the record of whether it can still be written to.
//!
//! The ZIP writer comes from the `zip` crate and is not verified. What this
//! module assumes of it is stated on the items marked as trusted below, over
//! `archive_parts`, the name for what the archive holds, `archive_image`,
//! the name for the bytes that closing it hands back, and `archive_starts`,
//! `archive_takes` and `archive_closes`, the names for whether a call of the
//! writer succeeds.

use vstd::prelude::*;

verus! {

/// Trusted: the ZIP writer of the `zip` crate over a buffer in memory. Verus
/// sees nothing inside it.
#[verifier::external_body]
pub struct ZipStream {
    writer: zip::ZipWriter<std::io::Cursor<Vec<u8>>>,
}

/// Trusted: the type `std::io::Error`. Verus sees nothing inside it.
#[verifier::external_type_specification]
#[verifier::external_body]
pub struct ExIoError(std::io::Error);

/// Trusted: the type `zip::result::ZipError`. Verus sees nothing inside it.
#[verifier::external_type_specification]
#[verifier::external_body]
pub struct ExZipError(zip::result::ZipError);

/// The parts that an archive holds, in the order in which they were started:
/// each with its name and with the bytes written to it so far, before
/// compression.
pub uninterp spec fn archive_parts(archive: ZipStream) -> Seq<
    (Seq<char>, Seq<u8>),
>;

/// The bytes that closing the archive hands back: the ZIP file that the
/// archive writer makes of what it holds. They are a function of the state of
/// the writer alone, which holds the parts and the time it recorded for each
/// when the part was started; closing reads no clock.
pub uninterp spec fn archive_image(archive: ZipStream) -> Seq<u8>;

/// Whether the archive writer starts a part named `name` on an archive in this
/// state. The writer decides it by its own state and the name: it reads the
/// clock for the time of the part only.
pub uninterp spec fn archive_starts(archive: ZipStream, name: Seq<char>) -> bool;

/// Whether the archive writer takes all of `bytes` for the part started last
/// on an archive in this state. The writer decides it by its own state and
/// the bytes.
pub uninterp spec fn archive_takes(archive: ZipStream, bytes: Seq<u8>) -> bool;

/// Whether the archive writer closes an archive in this state. The writer
/// decides it by its own state.
pub uninterp spec fn archive_closes(archive: ZipStream) -> bool;

/// The parts `parts` after `bytes` were written to the last of them.
pub open spec fn append_to_last(parts: Seq<(Seq<char>, Seq<u8>)>, bytes: Seq<u8>) -> Seq<
    (Seq<char>, Seq<u8>),
> {
    if parts.len() == 0 {
        parts
    } else {
        parts.update(parts.len() - 1, (parts.last().0, parts.last().1 + bytes))
    }
}

/// Trusted: `zip::ZipWriter::new`, over `std::io::Cursor::new` at the start
/// of the buffer `sink`. A new writer holds no part.
#[verifier::external_body]
fn archive_new(sink: Vec<u8>) -> (archive: ZipStream)
    ensures
        archive_parts(archive) == Seq::<(Seq<char>, Seq<u8>)>::empty(),
{
    ZipStream { writer: zip::ZipWriter::new(std::io::Cursor::new(sink)) }
}

/// Trusted: `zip::ZipWriter::start_file` with `zip::write::FileOptions::default()`.
/// Where it succeeds, the archive holds one part more, the last, with the
/// name given and no bytes yet, and what is written next goes to that part.
/// Where it fails, nothing is claimed of the archive. Whether it succeeds is
/// what `archive_starts` names.
#[verifier::external_body]
fn archive_start_file(archive: &mut ZipStream, name: &str) -> (r:
    Result<(), zip::result::ZipError>)
    ensures
        (r is Ok) == archive_starts(*old(archive), name@),
        r is Ok ==> archive_parts(*final(archive)) == archive_parts(*old(archive)).push(
            (name@, Seq::<u8>::empty()),
        ),
{
    archive.writer.start_file(name, zip::write::FileOptions::default())
}

/// Trusted: `std::io::Write::write_all` on `zip::ZipWriter`. Where it
/// succeeds, all of `bytes` were added to the end of the last part, and the
/// other parts are as they were; an archive without parts is as it was, since
/// the call then succeeds for no bytes only. Where it fails, nothing is
/// claimed of the archive. Whether it succeeds is what `archive_takes` names;
/// for no bytes it succeeds, since it then makes no call of the writer.
#[verifier::external_body]
fn archive_write_all(archive: &mut ZipStream, bytes: &[u8]) -> (r:
    Result<(), std::io::Error>)
    ensures
        (r is Ok) == archive_takes(*old(archive), bytes@),
        bytes@.len() == 0 ==> r is Ok,
        r is Ok ==> archive_parts(*final(archive)) == append_to_last(
            archive_parts(*old(archive)),
            bytes@,
        ),
{
    std::io::Write::write_all(&mut archive.writer, bytes)
}

/// Trusted: `zip::ZipWriter::finish`. Where it succeeds, it hands back the
/// buffer that the archive was written to, which holds the image of the
/// archive as it was before the call, and the archive holds the parts it
/// held. How the image encodes the parts is not stated. Whether it succeeds
/// is what `archive_closes` names.
#[verifier::external_body]
fn archive_finish(archive: &mut ZipStream) -> (r: Result<Vec<u8>, zip::result::ZipError>)
    ensures
        (r is Ok) == archive_closes(*old(archive)),
        r is Ok ==> archive_parts(*final(archive)) == archive_parts(*old(archive)),
        r matches Ok(buffer) ==> buffer@ == archive_image(*old(archive)),
{
    match archive.writer.finish() {
        Ok(cursor) => Ok(cursor.into_inner()),
        Err(error) => Err(error),
    }
}

/// Why a document could not be written.
#[derive(Debug)]
pub enum WriteError {
    /// The archive writer could not start a part or close the archive.
    Archive(zip::result::ZipError),
    /// The archive writer rejected bytes written to a part.
    Sink(std::io::Error),
    /// An earlier operation on the same document failed. The document is
    /// invalid, and nothing more is written to it.
    Broken,
    /// The archive was closed before.
    Finished,
    /// A counter of the document cannot count further: there are as many
    /// rows as the machine can count.
    Limit,
}

/// Whether an archive can still be written to.
#[derive(Clone, Copy, Debug, PartialEq, Eq, Structural)]
pub enum Phase {
    /// Parts can be started and written.
    Open,
    /// The archive was closed; its buffer was handed out.
    Finished,
    /// An operation failed; what the archive holds is not known.
    Broken,
}

/// The result of an operation of the archive writer as a result of this
/// library: success stays success, and a failure becomes `WriteError::Archive`
/// with the error of the archive writer inside.
pub fn archive_outcome<T>(outcome: Result<T, zip::result::ZipError>) -> (r: Result<T, WriteError>)
    ensures
        match outcome {
            Ok(value) => r == Ok::<T, WriteError>(value),
            Err(error) => r == Err::<T, WriteError>(WriteError::Archive(error)),
        },
{
    match outcome {
        Ok(value) => Ok(value),
        Err(error) => Err(WriteError::Archive(error)),
    }
}

/// The result of a write to a part as a result of this library: success
/// stays success, and a failure becomes `WriteError::Sink` with the error
/// of the write inside.
pub fn sink_outcome(outcome: Result<(), std::io::Error>) -> (r: Result<(), WriteError>)
    ensures
        match outcome {
            Ok(value) => r == Ok::<(), WriteError>(()),
            Err(error) => r == Err::<(), WriteError>(WriteError::Sink(error)),
        },
{
    match outcome {
        Ok(value) => Ok(()),
        Err(error) => Err(WriteError::Sink(error)),
    }
}

/// The phase of an archive that was open, after an operation that succeeded
/// or failed.
pub open spec fn phase_after(succeeded: bool) -> Phase {
    if succeeded {
        Phase::Open
    } else {
        Phase::Broken
    }
}

/// Whether `trail` records how the parts `parts` were added to the archive
/// `start` one after the other, with `accepted` saying whether all of them
/// were added and `end` being the archive after the last of them.
///
/// The entry of `trail` for a part holds the archive after the part was
/// started and the archive after its bytes were written. A part is added
/// exactly when the archive writer starts it and then takes its bytes. The
/// next part is added to the archive that the part before it left. The run
/// ends at the first part that is not added.
pub open spec fn fills(
    start: Archive,
    parts: Seq<(Seq<char>, Seq<u8>)>,
    trail: Seq<(Archive, Archive)>,
    accepted: bool,
    end: Archive,
) -> bool
    decreases parts.len(),
{
    if parts.len() == 0 {
        accepted && end == start
    } else if trail.len() == 0 {
        false
    } else {
        let started = trail[0].0;
        let after = trail[0].1;
        &&& start.leads_to(parts[0].0, started)
        &&& if start.accepts(parts[0].0, parts[0].1, started) {
            &&& after.phase() == Phase::Open
            &&& after.parts() == start.parts().push(parts[0])
            &&& fills(after, parts.drop_first(), trail.drop_first(), accepted, end)
        } else {
            !accepted
        }
    }
}

/// The parts that a list of names and texts stands for: each name with the
/// bytes of its text in UTF-8.
pub open spec fn part_views(parts: Seq<(String, String)>) -> Seq<(Seq<char>, Seq<u8>)> {
    Seq::new(parts.len(), |i: int| (parts[i].0@, vstd::utf8::encode_utf8(parts[i].1@)))
}

/// The phase of an archive after it was given up: an open archive is broken,
/// and an archive in another phase stays in it.
pub open spec fn given_up(phase: Phase) -> Phase {
    if phase == Phase::Open {
        Phase::Broken
    } else {
        phase
    }
}

/// The number that follows `count`, for a counter of rows or of sheets; the
/// error `WriteError::Limit` exactly when `count` is the largest number that
/// the machine can count to.
pub fn next_number(count: usize) -> (r: Result<usize, WriteError>)
    ensures
        count < usize::MAX ==> r == Ok::<usize, WriteError>((count + 1) as usize),
        count == usize::MAX ==> r == Err::<usize, WriteError>(WriteError::Limit),
{
    if count < usize::MAX {
        Ok(count + 1)
    } else {
        Err(WriteError::Limit)
    }
}

/// The error with which an archive that is not open refuses an operation.
pub open spec fn refusal(phase: Phase) -> WriteError {
    if phase == Phase::Finished {
        WriteError::Finished
    } else {
        WriteError::Broken
    }
}

/// An archive under construction in a buffer in memory. It starts one part
/// at a time; bytes written go to the part started last. After a failure it
/// is broken, and after it was closed it is finished: in either phase it
/// refuses every operation and stays as it is.
pub struct Archive {
    stream: ZipStream,
    phase: Phase,
}

impl Archive {
    /// The parts of the archive, each with its name and the bytes written to
    /// it so far.
    pub closed spec fn parts(&self) -> Seq<(Seq<char>, Seq<u8>)> {
        archive_parts(self.stream)
    }

    /// Whether the archive can still be written to.
    pub closed spec fn spec_phase(&self) -> Phase {
        self.phase
    }

    /// The bytes that closing this archive hands back: the ZIP file of its
    /// parts, as the archive writer encodes it.
    pub closed spec fn image(&self) -> Seq<u8> {
        archive_image(self.stream)
    }

    /// Whether the archive writer starts a part named `name` on this
    /// archive.
    pub closed spec fn starts(&self, name: Seq<char>) -> bool {
        archive_starts(self.stream, name)
    }

    /// Whether the archive writer takes all of `bytes` for the part of this
    /// archive that was started last.
    pub closed spec fn takes(&self, bytes: Seq<u8>) -> bool {
        archive_takes(self.stream, bytes)
    }

    /// Whether the archive writer closes this archive.
    pub closed spec fn closes(&self) -> bool {
        archive_closes(self.stream)
    }

    /// Whether `started` can stand for this archive after a part named `name`
    /// was started: where the archive writer starts the part, `started` is
    /// open and holds the parts of this archive and then the new part, empty.
    pub open spec fn leads_to(&self, name: Seq<char>, started: Archive) -> bool {
        self.starts(name) ==> started.phase() == Phase::Open && started.parts()
            == self.parts().push((name, Seq::<u8>::empty()))
    }

    /// Whether a part named `name` with `bytes` is added to this archive,
    /// where `started` is the archive after the part was started: the
    /// archive writer starts the part and then takes the bytes.
    pub open spec fn accepts(&self, name: Seq<char>, bytes: Seq<u8>, started: Archive) -> bool {
        self.starts(name) && started.takes(bytes)
    }

    /// An open archive without parts, which will be written to the buffer
    /// `sink` in place of what the buffer holds.
    pub fn new(sink: Vec<u8>) -> (archive: Archive)
        ensures
            archive.parts() == Seq::<(Seq<char>, Seq<u8>)>::empty(),
            archive.phase() == Phase::Open,
    {
        let mut sink = sink;
        sink.clear();
        Archive { stream: archive_new(sink), phase: Phase::Open }
    }

    /// Whether the archive can still be written to.
    #[verifier::when_used_as_spec(spec_phase)]
    pub fn phase(&self) -> (phase: Phase)
        ensures
            phase == self.spec_phase(),
    {
        self.phase
    }

    /// Starts a part named `name`. What is written next goes to it.
    ///
    /// An archive that is not open refuses and is left as it is. On an open
    /// archive the part is started exactly when the archive writer starts
    /// it: after success the archive holds the new part, empty, as its last;
    /// after failure it is broken.
    pub fn start_part(&mut self, name: &str) -> (r: Result<(), WriteError>)
        ensures
            old(self).phase() != Phase::Open ==> r == Err::<(), WriteError>(
                refusal(old(self).phase()),
            ) && *final(self) == *old(self),
            old(self).phase() == Phase::Open ==> (r is Ok) == old(self).starts(name@),
            old(self).phase() == Phase::Open ==> final(self).phase() == phase_after(r is Ok) && (r
                matches Err(e) ==> e is Archive),
            old(self).phase() == Phase::Open && r is Ok ==> final(self).parts()
                == old(self).parts().push((name@, Seq::<u8>::empty())),
    {
        match self.phase {
            Phase::Open => {
                let outcome = archive_outcome(archive_start_file(&mut self.stream, name));
                if outcome.is_err() {
                    self.phase = Phase::Broken;
                }
                outcome
            },
            Phase::Finished => Err(WriteError::Finished),
            Phase::Broken => Err(WriteError::Broken),
        }
    }

    /// Writes `text`, encoded as UTF-8, to the end of the part started last.
    ///
    /// An archive that is not open refuses and is left as it is. On an open
    /// archive the text is written exactly when the archive writer takes its
    /// bytes, and always when there are none: after success the last part
    /// ends with the bytes of `text`; after failure the archive is broken.
    pub fn write(&mut self, text: &str) -> (r: Result<(), WriteError>)
        ensures
            old(self).phase() != Phase::Open ==> r == Err::<(), WriteError>(
                refusal(old(self).phase()),
            ) && *final(self) == *old(self),
            old(self).phase() == Phase::Open ==> (r is Ok) == old(self).takes(
                vstd::utf8::encode_utf8(text@),
            ),
            old(self).phase() == Phase::Open && text@.len() == 0 ==> r is Ok,
            old(self).phase() == Phase::Open ==> final(self).phase() == phase_after(r is Ok) && (r
                matches Err(e) ==> e is Sink),
            old(self).phase() == Phase::Open && r is Ok ==> final(self).parts() == append_to_last(
                old(self).parts(),
                vstd::utf8::encode_utf8(text@),
            ),
    {
        match self.phase {
            Phase::Open => {
                proof {
                    if text@.len() == 0 {
                        assert(vstd::utf8::encode_utf8(text@) =~= Seq::<u8>::empty());
                    }
                }
                let outcome = sink_outcome(archive_write_all(&mut self.stream, text.as_bytes()));
                if outcome.is_err() {
                    self.phase = Phase::Broken;
                }
                outcome
            },
            Phase::Finished => Err(WriteError::Finished),
            Phase::Broken => Err(WriteError::Broken),
        }
    }

    /// Adds a part named `name` that holds `text`, encoded as UTF-8.
    ///
    /// An archive that is not open refuses and is left as it is. On an open
    /// archive the part is added exactly when the archive writer starts it
    /// and then takes its bytes: after success the archive holds the new
    /// part, complete, as its last; after failure it is broken.
    pub fn add_part(&mut self, name: &str, text: &str) -> (r: Result<(), WriteError>)
        ensures
            old(self).phase() != Phase::Open ==> r == Err::<(), WriteError>(
                refusal(old(self).phase()),
            ) && *final(self) == *old(self),
            old(self).phase() == Phase::Open ==> exists|started: Archive|
                #[trigger] old(self).leads_to(name@, started) && (r is Ok) == old(self).accepts(
                    name@,
                    vstd::utf8::encode_utf8(text@),
                    started,
                ),
            old(self).phase() == Phase::Open ==> final(self).phase() == phase_after(r is Ok) && (r
                matches Err(e) ==> e is Archive || e is Sink),
            old(self).phase() == Phase::Open && r is Ok ==> final(self).parts()
                == old(self).parts().push((name@, vstd::utf8::encode_utf8(text@))),
    {
        match self.start_part(name) {
            Ok(()) => {
                let ghost started = *self;
                let r = self.write(text);
                proof {
                    assert(old(self).leads_to(name@, started));
                    if r is Ok {
                        let before = old(self).parts();
                        let started = before.push((name@, Seq::<u8>::empty()));
                        assert(Seq::<u8>::empty() + vstd::utf8::encode_utf8(text@)
                            =~= vstd::utf8::encode_utf8(text@));
                        assert(append_to_last(started, vstd::utf8::encode_utf8(text@))
                            =~= before.push((name@, vstd::utf8::encode_utf8(text@))));
                    }
                }
                r
            },
            Err(e) => {
                proof {
                    if old(self).phase() == Phase::Open {
                        assert(old(self).leads_to(name@, *old(self)));
                    }
                }
                Err(e)
            },
        }
    }

    /// Adds the parts of `parts` from position `from` on, one after the
    /// other, each with its name and its text, and stops at the first that
    /// is not added.
    ///
    /// An archive that is not open refuses and is left as it is. On an open
    /// archive all the parts are added exactly when the archive writer
    /// accepts each in its turn: after success the archive holds them after
    /// the parts it held; after failure it is broken.
    pub fn add_parts(&mut self, parts: &Vec<(String, String)>, from: usize) -> (r: Result<
        (),
        WriteError,
    >)
        requires
            from <= parts.len(),
        ensures
            old(self).phase() != Phase::Open ==> r == Err::<(), WriteError>(
                refusal(old(self).phase()),
            ) && *final(self) == *old(self),
            old(self).phase() == Phase::Open ==> exists|
                trail: Seq<(Archive, Archive)>,
                accepted: bool,
            |
                #[trigger] fills(
                    *old(self),
                    part_views(parts@).skip(from as int),
                    trail,
                    accepted,
                    *final(self),
                ) && (r is Ok) == accepted,
            old(self).phase() == Phase::Open ==> final(self).phase() == phase_after(r is Ok) && (r
                matches Err(e) ==> e is Archive || e is Sink),
            old(self).phase() == Phase::Open && r is Ok ==> final(self).parts()
                == old(self).parts() + part_views(parts@).skip(from as int),
        decreases parts.len() - from,
    {
        let ghost rest = part_views(parts@).skip(from as int);
        match self.phase {
            Phase::Open => {},
            Phase::Finished => {
                return Err(WriteError::Finished);
            },
            Phase::Broken => {
                return Err(WriteError::Broken);
            },
        }
        if from == parts.len() {
            proof {
                assert(rest.len() == 0);
                assert(fills(*old(self), rest, Seq::empty(), true, *self));
                assert(old(self).parts() + rest =~= old(self).parts());
            }
            return Ok(());
        }
        let ghost later = part_views(parts@).skip(from + 1);
        proof {
            assert(rest[0] == part_views(parts@)[from as int]);
            assert(rest.drop_first() =~= later);
        }
        let first = self.add_part(parts[from].0.as_str(), parts[from].1.as_str());
        let ghost started = choose|started: Archive|
            #[trigger] old(self).leads_to(rest[0].0, started) && (first is Ok)
                == old(self).accepts(rest[0].0, rest[0].1, started);
        match first {
            Ok(()) => {
                let ghost after = *self;
                let r = self.add_parts(parts, from + 1);
                proof {
                    let (trail, accepted) = choose|
                        trail: Seq<(Archive, Archive)>,
                        accepted: bool,
                    |
                        #[trigger] fills(after, later, trail, accepted, *self) && (r is Ok)
                            == accepted;
                    let whole = seq![(started, after)] + trail;
                    assert(whole[0] == (started, after));
                    assert(whole.drop_first() =~= trail);
                    assert(fills(*old(self), rest, whole, accepted, *self));
                    if r is Ok {
                        assert(old(self).parts().push(rest[0]) + later =~= old(self).parts()
                            + rest);
                    }
                }
                r
            },
            Err(e) => {
                proof {
                    let whole = seq![(started, started)];
                    assert(whole[0] == (started, started));
                    assert(fills(*old(self), rest, whole, false, *self));
                }
                Err(e)
            },
        }
    }

    /// Gives up the archive: an open archive becomes broken, so that nothing
    /// more is written to it. An archive in another phase is left as it is.
    /// The parts are as they were.
    pub fn abandon(&mut self)
        ensures
            final(self).phase() == given_up(old(self).phase()),
            final(self).parts() == old(self).parts(),
            old(self).phase() != Phase::Open ==> *final(self) == *old(self),
    {
        match self.phase {
            Phase::Open => {
                self.phase = Phase::Broken;
            },
            Phase::Finished => {},
            Phase::Broken => {},
        }
    }

    /// Closes the archive and hands back the buffer that holds it.
    ///
    /// An archive that is not open refuses and is left as it is: closing a
    /// second time changes nothing. An open archive is closed exactly when
    /// the archive writer closes it: after success the buffer holds the image of the archive as
    /// it was, and the archive is finished and holds the parts it held; after
    /// failure it is broken.
    pub fn close(&mut self) -> (r: Result<Vec<u8>, WriteError>)
        ensures
            old(self).phase() == Phase::Open ==> (r is Ok) == old(self).closes(),
            r matches Ok(buffer) ==> old(self).phase() == Phase::Open
                && buffer@ == old(self).image(),
            old(self).phase() != Phase::Open ==> r == Err::<Vec<u8>, WriteError>(
                refusal(old(self).phase()),
            ) && *final(self) == *old(self),
            old(self).phase() == Phase::Open ==> final(self).phase() == (if r is Ok {
                Phase::Finished
            } else {
                Phase::Broken
            }) && (r matches Err(e) ==> e is Archive),
            old(self).phase() == Phase::Open && r is Ok ==> final(self).parts()
                == old(self).parts(),
    {
        match self.phase {
            Phase::Open => {
                let outcome = archive_outcome(archive_finish(&mut self.stream));
                if outcome.is_err() {
                    self.phase = Phase::Broken;
                } else {
                    self.phase = Phase::Finished;
                }
                outcome
            },
            Phase::Finished => Err(WriteError::Finished),
            Phase::Broken => Err(WriteError::Broken),
        }
    }
}

} // verus!
