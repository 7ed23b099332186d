//! Converting files without opening them: where the output goes, and what came of it.

use vstd::prelude::*;
use crate::decode::DecodeError;
use crate::export;
use crate::export::ExportError;
use crate::export::Format;
use crate::export::Settings;
use crate::path;
use crate::raster::Raster;

verus! {

/// What happened to one file.
#[derive(Debug)]
pub enum Outcome {
    Converted {
        source: String,
        destination: String,
        /// Size of the file written.
        bytes: u64,
        /// Size of the source.
        source_bytes: u64,
    },
    Failed { source: String, reason: String },
}

impl Outcome {
    pub open spec fn about(&self) -> Seq<char> {
        match self {
            Outcome::Converted { source, .. } => source@,
            Outcome::Failed { source, .. } => source@,
        }
    }

    pub fn source(&self) -> (source: &str)
        ensures
            source@ == self.about(),
    {
        match self {
            Outcome::Converted { source, .. } => source.as_str(),
            Outcome::Failed { source, .. } => source.as_str(),
        }
    }

    pub fn is_failure(&self) -> (failed: bool)
        ensures
            failed == (self is Failed),
    {
        match self {
            Outcome::Converted { .. } => false,
            Outcome::Failed { .. } => true,
        }
    }
}

/// The name of the file that a source is converted to: its stem and the extension of the
/// format. A source without a name gets a fixed one.
pub open spec fn converted_name(source: Seq<char>, format: Format) -> Seq<char> {
    (match path::stem_of(source) {
        Some(stem) => if stem.len() > 0 {
            stem
        } else {
            "converted"@
        },
        None => "converted"@,
    }) + "."@ + format.written_as()
}

/// Where `source` would be written, converted to `format` inside `directory`.
pub fn destination_for(source: &str, directory: &str, format: Format) -> (destination: String)
    ensures
        destination@ == path::joined(directory@, converted_name(source@, format)),
{
    let mut name = match path::file_stem(source) {
        Some(stem) => if stem.as_str().is_empty() {
            "converted".to_owned()
        } else {
            stem
        },
        None => "converted".to_owned(),
    };
    name.append(".");
    name.append(format.extension());
    path::join(directory, name.as_str())
}

/// What a conversion of one file has to write: where, and which bytes.
#[derive(Debug)]
pub struct Product {
    pub destination: String,
    pub file: Vec<u8>,
}

/// Makes of a decoded source what has to be written, or says why it cannot be.
pub fn convert_file(
    source: &str,
    decoded: Result<&Raster, DecodeError>,
    directory: &str,
    settings: &Settings,
) -> (product: Result<Product, String>)
    requires
        decoded matches Ok(pixels) ==> pixels.wf() && export::exportable(
            *settings,
            (pixels.width, pixels.height),
        ),
    ensures
        ({
            let target = path::joined(directory@, converted_name(source@, settings.format));
            match decoded {
                Err(error) => product matches Err(reason) && reason@ == (
                if error.fault() is Io {
                    "could not read "@
                } else if error.fault() is Svg {
                    "could not render "@
                } else {
                    "could not decode "@
                }) + error.about() + ": "@ + error.why(),
                Ok(pixels) => match product {
                    Ok(product) => product.destination@ == target && export::is_export(
                        *pixels,
                        *settings,
                        Ok(product.file),
                    ),
                    Err(reason) => exists|why: String|
                        #![trigger why@]
                        {
                            &&& export::is_export(*pixels, *settings, Err(why))
                            &&& reason@ == "could not write "@ + target + ": "@ + why@
                        },
                },
            }
        }),
{
    let pixels = match decoded {
        Ok(pixels) => pixels,
        Err(error) => return Err(error.message()),
    };
    let destination = destination_for(source, directory, settings.format);
    match export::encode(pixels, settings) {
        Ok(file) => Ok(Product { destination, file }),
        Err(why) => {
            let error = ExportError::at(destination.as_str(), why.as_str());
            let reason = error.message();
            proof {
                assert(export::is_export(*pixels, *settings, Err(why)));
                assert(reason@ == "could not write "@ + destination@ + ": "@ + why@);
            }
            Err(reason)
        },
    }
}

/// Whether `outcome` is what is reported of one file.
pub open spec fn is_outcome(
    source: Seq<char>,
    written: Result<String, String>,
    bytes: Option<u64>,
    source_bytes: Option<u64>,
    outcome: Outcome,
) -> bool {
    &&& outcome.about() == source
    &&& match written {
        Ok(path) => outcome == (Outcome::Converted {
            source: outcome->Converted_source,
            destination: path,
            bytes: if bytes is Some {
                bytes->0
            } else {
                0
            },
            source_bytes: if source_bytes is Some {
                source_bytes->0
            } else {
                0
            },
        }),
        Err(reason) => outcome is Failed && outcome->reason@ == reason@,
    }
}

/// What is reported of one file: where it went and how its size changed, or why it failed.
pub fn outcome(
    source: &str,
    written: Result<String, String>,
    bytes: Option<u64>,
    source_bytes: Option<u64>,
) -> (outcome: Outcome)
    ensures
        is_outcome(source@, written, bytes, source_bytes, outcome),
{
    match written {
        Ok(destination) => Outcome::Converted {
            source: source.to_owned(),
            destination,
            bytes: match bytes {
                Some(bytes) => bytes,
                None => 0,
            },
            source_bytes: match source_bytes {
                Some(bytes) => bytes,
                None => 0,
            },
        },
        Err(reason) => Outcome::Failed { source: source.to_owned(), reason },
    }
}

/// A batch under way, as mathematics.
pub struct Run {
    pub sources: Seq<Seq<char>>,
    /// What came of the first of them.
    pub outcomes: Seq<Outcome>,
}

impl Run {
    /// There is one outcome for each source so far, in their order.
    pub open spec fn wf(self) -> bool {
        &&& self.outcomes.len() <= self.sources.len()
        &&& forall|i: int|
            0 <= i < self.outcomes.len() ==> (#[trigger] self.outcomes[i]).about()
                == self.sources[i]
    }

    /// The source whose turn it is.
    pub open spec fn turn(self) -> Option<Seq<char>> {
        if self.outcomes.len() < self.sources.len() {
            Some(self.sources[self.outcomes.len() as int])
        } else {
            None
        }
    }

    /// The batch once something came of that source.
    pub open spec fn after(self, outcome: Outcome) -> Run {
        Run { sources: self.sources, outcomes: self.outcomes.push(outcome) }
    }
}

/// A batch under way: its files one after another, whatever comes of each.
#[derive(Debug)]
pub struct Batch {
    sources: Vec<String>,
    outcomes: Vec<Outcome>,
}

impl View for Batch {
    type V = Run;

    closed spec fn view(&self) -> Run {
        Run {
            sources: self.sources@.map_values(|source: String| source@),
            outcomes: self.outcomes@,
        }
    }
}

/// Starts on converting every file of a batch.
pub fn convert_all(sources: Vec<String>) -> (batch: Batch)
    ensures
        batch@.wf(),
        batch@.sources == sources@.map_values(|source: String| source@),
        batch@.outcomes == Seq::<Outcome>::empty(),
{
    Batch { sources, outcomes: Vec::new() }
}

impl Batch {
    /// The file to convert next, until there is none left.
    pub fn source(&self) -> (source: Option<&str>)
        ensures
            source is Some == (self@.turn() is Some),
            source matches Some(source) ==> self@.turn() == Some(source@),
    {
        let at: usize = self.outcomes.len();
        if at < self.sources.len() {
            Some(self.sources[at].as_str())
        } else {
            None
        }
    }

    /// Notes what came of the file whose turn it was. Says how many are done, and of how
    /// many.
    pub fn record(
        &mut self,
        written: Result<String, String>,
        bytes: Option<u64>,
        source_bytes: Option<u64>,
    ) -> (progress: (usize, usize))
        requires
            old(self)@.wf(),
            old(self)@.turn() is Some,
        ensures
            final(self)@.wf(),
            final(self)@ == old(self)@.after(final(self)@.outcomes.last()),
            is_outcome(
                old(self)@.turn()->0,
                written,
                bytes,
                source_bytes,
                final(self)@.outcomes.last(),
            ),
            progress.0 == final(self)@.outcomes.len(),
            progress.1 == final(self)@.sources.len(),
    {
        let at: usize = self.outcomes.len();
        let outcome = outcome(self.sources[at].as_str(), written, bytes, source_bytes);
        self.outcomes.push(outcome);
        assert(self@ =~= old(self)@.after(outcome));
        (self.outcomes.len(), self.sources.len())
    }

    /// What came of the files so far.
    pub fn outcomes(&self) -> (outcomes: &Vec<Outcome>)
        ensures
            outcomes@ == self@.outcomes,
    {
        &self.outcomes
    }
}

/// One failure does not stop a batch: which file comes next never depends on what came of
/// the last, and a batch that is over has something to say of each file.
pub proof fn law_a_failure_stops_nothing(run: Run, one: Outcome, other: Outcome)
    requires
        run.wf(),
    ensures
        run.after(one).turn() == run.after(other).turn(),
        run.turn() is None ==> {
            &&& run.outcomes.len() == run.sources.len()
            &&& forall|i: int|
                0 <= i < run.sources.len() ==> (#[trigger] run.outcomes[i]).about()
                    == run.sources[i]
        },
{
}

/// Two sources with different stems never aim at one destination name, whatever dots their
/// names hold.
pub proof fn law_stems_are_kept_apart(one: Seq<char>, other: Seq<char>, format: Format)
    requires
        path::stem_of(one) is Some,
        path::stem_of(other) is Some,
        path::stem_of(one)->0.len() > 0,
        path::stem_of(other)->0.len() > 0,
        converted_name(one, format) == converted_name(other, format),
    ensures
        path::stem_of(one) == path::stem_of(other),
{
    let a = path::stem_of(one)->0;
    let b = path::stem_of(other)->0;
    let tail = "."@ + format.written_as();
    assert(converted_name(one, format) =~= a + tail);
    assert(converted_name(other, format) =~= b + tail);
    assert((a + tail).len() == (b + tail).len());
    assert(a =~= (a + tail).take(a.len() as int));
    assert(b =~= (b + tail).take(b.len() as int));
}

/// The file that a source is converted to has the extension of the format.
pub proof fn law_the_new_extension_is_taken(source: Seq<char>, format: Format)
    ensures
        path::extension_of_name(converted_name(source, format)) == Some(format.written_as()),
{
    let ext = format.written_as();
    let name = converted_name(source, format);
    reveal_strlit(".");
    reveal_strlit("converted");
    reveal_strlit("png");
    reveal_strlit("jpg");
    reveal_strlit("webp");
    reveal_strlit("bmp");
    reveal_strlit("ico");
    let dot = name.len() - ext.len() - 1;
    assert(name[dot] == '.');
    assert forall|i: int| dot < i < name.len() implies name[i] != '.' by {
        assert(name[i] == ext[i - dot - 1]);
    }
    lemma_last_dot(name, dot, name.len() as int);
    assert(name.skip(dot + 1) =~= ext);
}

proof fn lemma_last_dot(name: Seq<char>, dot: int, n: int)
    requires
        0 <= dot < n <= name.len(),
        name[dot] == '.',
        forall|i: int| dot < i < n ==> name[i] != '.',
    ensures
        path::last_dot(name, n) == dot,
    decreases n,
{
    if n - 1 > dot {
        lemma_last_dot(name, dot, n - 1);
    }
}

proof fn lemma_dot_is_within(name: Seq<char>, n: int)
    requires
        0 <= n,
    ensures
        -1 <= path::last_dot(name, n) < n,
    decreases n,
{
    if n > 0 {
        lemma_dot_is_within(name, n - 1);
    }
}

/// A converted file keeps the stem of its source and sits in the folder that was asked
/// for, as long as that folder does not end within its root and the name of the source holds
/// no slash, as only that of a verbatim path can.
pub proof fn law_the_destination_has_its_name(
    source: Seq<char>,
    directory: Seq<char>,
    format: Format,
)
    requires
        directory.len() > 0,
        path::is_verbatim(source) ==> (path::name_of(source) matches Some(name) ==> forall|i: int|
            0 <= i < name.len() ==> !path::is_separator(#[trigger] name[i])),
        path::root_len(path::joined(directory, converted_name(source, format))) <= path::joined(
            directory,
            converted_name(source, format),
        ).len() - converted_name(source, format).len(),
    ensures
        path::name_of(path::joined(directory, converted_name(source, format))) == Some(
            converted_name(source, format),
        ),
{
    let name = converted_name(source, format);
    let ext = format.written_as();
    reveal_strlit(".");
    reveal_strlit("converted");
    reveal_strlit("png");
    reveal_strlit("jpg");
    reveal_strlit("webp");
    reveal_strlit("bmp");
    reveal_strlit("ico");
    path::lemma_name_is_whole(source);
    assert(name.last() == ext.last());
    let stem = name.take(name.len() - ext.len() - 1);
    assert forall|i: int| 0 <= i < name.len() implies !path::is_separator(#[trigger] name[i]) by {
        if i < stem.len() {
            assert(name[i] == stem[i]);
            if path::stem_of(source) is Some && path::stem_of(source)->0.len() > 0 {
                let whole = path::name_of(source)->0;
                lemma_dot_is_within(whole, whole.len() as int);
                assert(stem =~= path::stem_of(source)->0);
                assert(stem[i] == whole[i]);
            } else {
                assert(stem =~= "converted"@);
            }
        } else if i > stem.len() {
            assert(name[i] == ext[i - stem.len() - 1]);
        }
    }
    path::law_a_joined_name_is_the_name(directory, name);
}

/// A converted file keeps the name of the file it was made of up to the last dot, and takes the
/// extension of its format.
pub proof fn law_a_converted_file_keeps_its_stem(
    source: Seq<char>,
    stem: Seq<char>,
    extension: Seq<char>,
    format: Format,
)
    requires
        path::name_of(source) == Some(stem + seq!['.'] + extension),
        stem.len() > 0,
        !extension.contains('.'),
    ensures
        converted_name(source, format) == stem + seq!['.'] + (match format {
            Format::Png => "png"@,
            Format::Jpeg => "jpg"@,
            Format::WebP => "webp"@,
            Format::Bmp => "bmp"@,
            Format::Ico => "ico"@,
        }),
{
    reveal_strlit(".");
    path::law_an_extension_follows_the_last_dot(stem, extension);
    assert(seq!['.'] =~= "."@);
}

/// An outcome tells of its own file: where it went, how large it became and how large it was, or
/// why it failed. A size that could not be read counts as none.
pub proof fn law_an_outcome_tells_of_its_file(
    source: Seq<char>,
    written: Result<String, String>,
    bytes: Option<u64>,
    source_bytes: Option<u64>,
    outcome: Outcome,
)
    requires
        is_outcome(source, written, bytes, source_bytes, outcome),
    ensures
        outcome is Failed == written is Err,
        match outcome {
            Outcome::Converted { source: about, destination, bytes: size, source_bytes: before } => {
                &&& about@ == source
                &&& destination@ == written->Ok_0@
                &&& size == (if bytes is Some { bytes->0 } else { 0 })
                &&& before == (if source_bytes is Some { source_bytes->0 } else { 0 })
            },
            Outcome::Failed { source: about, reason } => about@ == source && reason@
                == written->Err_0@,
        },
{
}

/// Files are converted in the order in which they were named, each once.
pub proof fn law_files_are_converted_in_order(run: Run, outcome: Outcome)
    requires
        run.wf(),
        run.outcomes.len() < run.sources.len(),
    ensures
        run.turn() == Some(run.sources[run.outcomes.len() as int]),
        outcome.about() == run.sources[run.outcomes.len() as int] ==> run.after(outcome).wf(),
        run.after(outcome).sources == run.sources,
        run.after(outcome).outcomes.len() == run.outcomes.len() + 1,
        run.after(outcome).outcomes.last() == outcome,
        run.after(outcome).turn() is Some <==> run.outcomes.len() + 1 < run.sources.len(),
        run.outcomes.len() + 1 < run.sources.len() ==> run.after(outcome).turn() == Some(
            run.sources[run.outcomes.len() + 1int],
        ),
{
}

} // verus!
