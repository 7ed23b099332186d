//! The command line, which exists so that conversion does not require a window.
//!
//! ```text
//! imaginer <file>                                   open the viewer
//! imaginer --convert <format> [options] <files...>  convert and exit
//!
//!   --quality <1-100>   for the lossy formats; ignored by the others
//!   --out <directory>   skip the folder dialog
//! ```

use vstd::prelude::*;
use crate::convert::Outcome;
use crate::export::Format;
use crate::export::Settings;
use crate::path;
use crate::sizes;
use crate::sizes::human_bytes;
use crate::sizes::saving;
use crate::text;
use crate::text::chars_of;
use crate::text::parse_number;
use crate::text::same_text;
use crate::text::to_decimal;

verus! {

/// What the arguments asked for.
#[derive(Debug)]
pub enum Launch {
    /// Open the viewer, on the given file if there was one.
    Viewer(Option<String>),
    Convert(Request),
}

/// A conversion that was asked for.
#[derive(Debug)]
pub struct Request {
    pub format: Format,
    pub quality: u8,
    /// Where to write. Nothing means ask.
    pub out_dir: Option<String>,
    pub files: Vec<String>,
}

/// What has been asked for so far, as mathematics.
pub struct Asked {
    pub format: Option<Format>,
    pub quality: Option<u8>,
    pub out_dir: Option<Seq<char>>,
    pub files: Seq<Seq<char>>,
}

/// A text in quotes, with what is special in it escaped.
pub uninterp spec fn quoted_of(text: Seq<char>) -> Seq<char>;

/// The `Debug` format of a `str`: the text in double quotes, escaped.
#[verifier::external_body]
fn quoted(s: &str) -> (text: String)
    ensures
        text@ == quoted_of(s@),
{
    format!("{s:?}")
}

/// Whether an argument is an option, by its two dashes.
pub open spec fn is_option(arg: Seq<char>) -> bool {
    arg.len() >= 2 && arg[0] == '-' && arg[1] == '-'
}

/// What the arguments from `i` on make of what was asked for before, or what is wrong with
/// them. Whatever is no option is a file.
pub open spec fn asked_from(args: Seq<Seq<char>>, i: int, asked: Asked) -> Result<Asked, Seq<char>>
    decreases args.len() - i,
{
    if i >= args.len() {
        Ok(asked)
    } else if args[i] == "--convert"@ {
        if i + 1 >= args.len() {
            Err("--convert needs a format, one of: png jpg webp bmp ico"@)
        } else {
            match Format::named(args[i + 1]) {
                Some(format) => asked_from(args, i + 2, Asked { format: Some(format), ..asked }),
                None => Err(
                    "cannot write "@ + quoted_of(args[i + 1]) + "; try png jpg webp bmp ico"@,
                ),
            }
        }
    } else if args[i] == "--quality"@ {
        if i + 1 >= args.len() {
            Err("--quality needs a number from 1 to 100"@)
        } else {
            match text::number_in(args[i + 1], 255) {
                None => Err(
                    "--quality wants a number from 1 to 100, not "@ + quoted_of(args[i + 1]),
                ),
                Some(quality) => if 1 <= quality <= 100 {
                    asked_from(args, i + 2, Asked { quality: Some(quality as u8), ..asked })
                } else {
                    Err("--quality is 1 to 100, not "@ + text::decimal(quality))
                },
            }
        }
    } else if args[i] == "--out"@ {
        if i + 1 >= args.len() {
            Err("--out needs a directory"@)
        } else {
            asked_from(args, i + 2, Asked { out_dir: Some(args[i + 1]), ..asked })
        }
    } else if is_option(args[i]) {
        Err("unknown option "@ + args[i])
    } else {
        asked_from(args, i + 1, Asked { files: asked.files.push(args[i]), ..asked })
    }
}

/// Nothing asked for yet.
pub open spec fn nothing() -> Asked {
    Asked { format: None, quality: None, out_dir: None, files: Seq::empty() }
}

pub open spec fn texts(list: Seq<String>) -> Seq<Seq<char>> {
    list.map_values(|s: String| s@)
}

pub open spec fn maybe_text(s: Option<String>) -> Option<Seq<char>> {
    match s {
        Some(s) => Some(s@),
        None => None,
    }
}

/// Whether `launch` is what the arguments come to, the first of which names the program.
pub open spec fn launched(args: Seq<Seq<char>>, launch: Result<Launch, String>) -> bool {
    match asked_from(args, 1, nothing()) {
        Err(message) => launch matches Err(said) && said@ == message,
        Ok(asked) => match asked.format {
            None => launch matches Ok(Launch::Viewer(file)) && maybe_text(file) == (
            if asked.files.len() > 0 {
                Some(asked.files[0])
            } else {
                None
            }),
            Some(format) => if asked.files.len() == 0 {
                launch matches Err(said) && said@ == "--convert needs at least one file"@
            } else {
                launch matches Ok(Launch::Convert(request)) && {
                    &&& request.format == format
                    &&& request.quality == (match asked.quality {
                        Some(quality) => quality,
                        None => 90,
                    })
                    &&& maybe_text(request.out_dir) == asked.out_dir
                    &&& texts(request.files@) == asked.files
                }
            },
        },
    }
}

fn starts_with_dashes(arg: &Vec<char>) -> (yes: bool)
    ensures
        yes == is_option(arg@),
{
    arg.len() >= 2 && arg[0] == '-' && arg[1] == '-'
}

/// Reads the arguments of the process, the first of which names the program.
pub fn parse(args: &Vec<String>) -> (launch: Result<Launch, String>)
    ensures
        launched(texts(args@), launch),
{
    let ghost all = texts(args@);
    let mut format: Option<Format> = None;
    let mut quality: Option<u8> = None;
    let mut out_dir: Option<String> = None;
    let mut files: Vec<String> = Vec::new();
    let count: usize = args.len();
    let mut i: usize = if count > 0 {
        1
    } else {
        0
    };
    proof {
        assert(texts(files@) =~= Seq::<Seq<char>>::empty());
    }
    while i < count
        invariant
            all == texts(args@),
            count == args@.len(),
            i <= count,
            count == 0 || i >= 1,
            asked_from(all, 1, nothing()) == asked_from(
                all,
                i as int,
                Asked {
                    format,
                    quality,
                    out_dir: maybe_text(out_dir),
                    files: texts(files@),
                },
            ),
        decreases count - i,
    {
        let arg = chars_of(args[i].as_str());
        assert(all[i as int] == arg@);
        if same_text(arg.as_slice(), "--convert") {
            if i + 1 >= count {
                return Err("--convert needs a format, one of: png jpg webp bmp ico".to_owned());
            }
            assert(all[i + 1] == args@[i + 1]@);
            match Format::from_name(args[i + 1].as_str()) {
                Some(named) => {
                    format = Some(named);
                },
                None => {
                    let mut message = "cannot write ".to_owned();
                    message.append(quoted(args[i + 1].as_str()).as_str());
                    message.append("; try png jpg webp bmp ico");
                    return Err(message);
                },
            }
            i += 2;
        } else if same_text(arg.as_slice(), "--quality") {
            if i + 1 >= count {
                return Err("--quality needs a number from 1 to 100".to_owned());
            }
            assert(all[i + 1] == args@[i + 1]@);
            let value = chars_of(args[i + 1].as_str());
            match parse_number(value.as_slice(), 255) {
                None => {
                    let mut message = "--quality wants a number from 1 to 100, not ".to_owned();
                    message.append(quoted(args[i + 1].as_str()).as_str());
                    return Err(message);
                },
                Some(number) => {
                    if number < 1 || number > 100 {
                        let mut message = "--quality is 1 to 100, not ".to_owned();
                        message.append(to_decimal(number).as_str());
                        return Err(message);
                    }
                    quality = Some(number as u8);
                },
            }
            i += 2;
        } else if same_text(arg.as_slice(), "--out") {
            if i + 1 >= count {
                return Err("--out needs a directory".to_owned());
            }
            assert(all[i + 1] == args@[i + 1]@);
            out_dir = Some(args[i + 1].clone());
            i += 2;
        } else if starts_with_dashes(&arg) {
            let mut message = "unknown option ".to_owned();
            message.append(args[i].as_str());
            return Err(message);
        } else {
            let ghost before = files@;
            files.push(args[i].clone());
            assert(texts(files@) =~= texts(before).push(all[i as int]));
            i += 1;
        }
    }
    let format = match format {
        Some(format) => format,
        None => {
            if files.len() == 0 {
                return Ok(Launch::Viewer(None));
            }
            let first = files[0].clone();
            assert(texts(files@)[0] == first@);
            return Ok(Launch::Viewer(Some(first)));
        },
    };
    if files.len() == 0 {
        return Err("--convert needs at least one file".to_owned());
    }
    let quality: u8 = match quality {
        Some(quality) => quality,
        None => Settings::default().quality,
    };
    Ok(Launch::Convert(Request { format, quality, out_dir, files }))
}

/// The ending of a noun that goes with a number.
pub open spec fn plural(count: nat) -> Seq<char> {
    if count == 1 {
        ""@
    } else {
        "s"@
    }
}

fn plural_of(count: usize) -> (ending: &'static str)
    ensures
        ending@ == plural(count as nat),
{
    if count == 1 {
        ""
    } else {
        "s"
    }
}

/// What the key of a batch says of a format and a quality.
pub open spec fn batch_of(format: Format, quality: u8) -> Seq<char> {
    format.written_as() + "-"@ + text::decimal(quality as nat)
}

/// Runs share a batch only if they write the same format at the same quality.
pub proof fn law_a_batch_is_of_one_kind(
    format: Format,
    quality: u8,
    other_format: Format,
    other_quality: u8,
)
    requires
        batch_of(format, quality) == batch_of(other_format, other_quality),
    ensures
        format == other_format,
        quality == other_quality,
{
    reveal_strlit("png");
    reveal_strlit("jpg");
    reveal_strlit("webp");
    reveal_strlit("bmp");
    reveal_strlit("ico");
    reveal_strlit("-");
    let one = batch_of(format, quality);
    let other = batch_of(other_format, other_quality);
    assert(one[0] == format.written_as()[0]);
    assert(other[0] == other_format.written_as()[0]);
    assert(format == other_format);
    let front = (format.written_as() + "-"@).len() as int;
    assert(text::decimal(quality as nat) =~= one.skip(front));
    assert(text::decimal(other_quality as nat) =~= other.skip(front));
    text::law_decimals_read_back(quality as nat, 255);
    text::law_decimals_read_back(other_quality as nat, 255);
}

impl Request {
    /// How the files are written: at full size, in the format and quality asked for.
    pub fn settings(&self) -> (settings: Settings)
        ensures
            settings == (Settings {
                format: self.format,
                quality: self.quality,
                scale_percent: 100,
            }),
    {
        Settings { format: self.format, quality: self.quality, scale_percent: 100 }
    }

    /// What runs that are to be one batch have in common: the format and the quality.
    pub fn batch_key(&self) -> (key: String)
        ensures
            key@ == batch_of(self.format, self.quality),
    {
        let mut key = self.format.extension().to_owned();
        key.append("-");
        key.append(to_decimal(self.quality as u64).as_str());
        key
    }

    /// What is said before the first file.
    pub fn heading(&self) -> (line: String)
        ensures
            line@ == "Converting "@ + text::decimal(self.files@.len()) + " file"@ + plural(
                self.files@.len(),
            ) + " to "@ + self.format.shown_as(),
    {
        let mut line = "Converting ".to_owned();
        line.append(to_decimal(self.files.len() as u64).as_str());
        line.append(" file");
        line.append(plural_of(self.files.len()));
        line.append(" to ");
        line.append(self.format.label());
        line
    }

    /// The title of the dialog that asks where to write.
    pub fn question(&self) -> (title: String)
        ensures
            title@ == "Convert "@ + text::decimal(self.files@.len()) + " file"@ + plural(
                self.files@.len(),
            ) + " to "@ + self.format.shown_as() + " \u{2014} choose a destination"@,
    {
        let mut title = "Convert ".to_owned();
        title.append(to_decimal(self.files.len() as u64).as_str());
        title.append(" file");
        title.append(plural_of(self.files.len()));
        title.append(" to ");
        title.append(self.format.label());
        title.append(" \u{2014} choose a destination");
        title
    }

    /// The folder that the dialog opens on: that of the first file.
    pub fn starting_folder(&self) -> (folder: Option<String>)
        ensures
            maybe_text(folder) == (if self.files@.len() > 0 {
                path::parent_of(self.files@[0]@)
            } else {
                None
            }),
    {
        if self.files.len() == 0 {
            return None;
        }
        path::parent(self.files[0].as_str())
    }
}

/// The line that a file leaves while a batch runs.
pub open spec fn progress_of(done: nat, total: nat, outcome: Outcome) -> Seq<char> {
    "["@ + text::decimal(done) + "/"@ + text::decimal(total) + "] "@ + (match outcome {
        Outcome::Converted { destination, bytes, source_bytes, .. } => destination@
            + " \u{2014} "@ + sizes::bytes_in_words(source_bytes) + " to "@
            + sizes::bytes_in_words(bytes) + sizes::saving_in_words(source_bytes, bytes),
        Outcome::Failed { source, reason } => source@ + " \u{2014} FAILED: "@ + reason@,
    })
}

pub fn progress_line(done: usize, total: usize, outcome: &Outcome) -> (line: String)
    ensures
        line@ == progress_of(done as nat, total as nat, *outcome),
{
    let mut line = "[".to_owned();
    line.append(to_decimal(done as u64).as_str());
    line.append("/");
    line.append(to_decimal(total as u64).as_str());
    line.append("] ");
    let ghost front = line@;
    match outcome {
        Outcome::Converted { destination, bytes, source_bytes, .. } => {
            line.append(destination.as_str());
            line.append(" \u{2014} ");
            line.append(human_bytes(*source_bytes).as_str());
            line.append(" to ");
            line.append(human_bytes(*bytes).as_str());
            line.append(saving(*source_bytes, *bytes).as_str());
            assert(line@ =~= front + (destination@ + " \u{2014} "@ + sizes::bytes_in_words(
                *source_bytes,
            ) + " to "@ + sizes::bytes_in_words(*bytes) + sizes::saving_in_words(
                *source_bytes,
                *bytes,
            )));
        },
        Outcome::Failed { source, reason } => {
            line.append(source.as_str());
            line.append(" \u{2014} FAILED: ");
            line.append(reason.as_str());
            assert(line@ =~= front + (source@ + " \u{2014} FAILED: "@ + reason@));
        },
    }
    line
}

/// How many of the first `n` outcomes are failures.
pub open spec fn failures(outcomes: Seq<Outcome>, n: int) -> nat
    decreases n,
{
    if n <= 0 {
        0
    } else {
        failures(outcomes, n - 1) + (if outcomes[n - 1] is Failed {
            1nat
        } else {
            0
        })
    }
}

/// The lines that the failures among the first `n` outcomes leave.
pub open spec fn failure_lines(outcomes: Seq<Outcome>, n: int) -> Seq<char>
    decreases n,
{
    if n <= 0 {
        Seq::empty()
    } else {
        failure_lines(outcomes, n - 1) + (match outcomes[n - 1] {
            Outcome::Failed { source, reason } => "\n"@ + (match path::name_of(source@) {
                Some(name) => name,
                None => source@,
            }) + " \u{2014} "@ + reason@,
            _ => Seq::empty(),
        })
    }
}

/// What is said after the last file.
#[derive(Debug)]
pub struct Report {
    pub summary: String,
    /// What went wrong, if anything did.
    pub warning: Option<String>,
}

/// Sums a batch up. A clean run has no warning, and then it succeeded.
pub fn report(outcomes: &Vec<Outcome>, directory: &str) -> (report: Report)
    ensures
        ({
            let total = outcomes@.len();
            let failed = failures(outcomes@, total as int);
            let converted = (total - failed) as nat;
            &&& report.summary@ == text::decimal(converted) + " written to "@ + directory@
            &&& report.warning is Some == (failed > 0)
            &&& report.warning matches Some(warning) ==> warning@ == text::decimal(converted)
                + " of "@ + text::decimal(total) + " converted. These failed:\n"@ + failure_lines(
                outcomes@,
                total as int,
            )
        }),
{
    let total: usize = outcomes.len();
    let mut failed: usize = 0;
    let mut lines = String::new();
    let mut i: usize = 0;
    while i < total
        invariant
            i <= total == outcomes@.len(),
            failed <= i,
            failed == failures(outcomes@, i as int),
            lines@ == failure_lines(outcomes@, i as int),
        decreases total - i,
    {
        let ghost before = lines@;
        match &outcomes[i] {
            Outcome::Failed { source, reason } => {
                failed += 1;
                lines.append("\n");
                match path::file_name(source.as_str()) {
                    Some(name) => lines.append(name.as_str()),
                    None => lines.append(source.as_str()),
                }
                lines.append(" \u{2014} ");
                lines.append(reason.as_str());
                assert(lines@ =~= before + ("\n"@ + (match path::name_of(source@) {
                    Some(name) => name,
                    None => source@,
                }) + " \u{2014} "@ + reason@));
            },
            Outcome::Converted { .. } => {
                assert(lines@ =~= before + Seq::<char>::empty());
            },
        }
        i += 1;
    }
    let converted: usize = total - failed;
    let mut summary = to_decimal(converted as u64);
    summary.append(" written to ");
    summary.append(directory);
    let warning = if failed == 0 {
        None
    } else {
        let mut warning = to_decimal(converted as u64);
        warning.append(" of ");
        warning.append(to_decimal(total as u64).as_str());
        warning.append(" converted. These failed:\n");
        warning.append(lines.as_str());
        Some(warning)
    };
    Report { summary, warning }
}

/// An option is accepted before the files as well as behind them: where nothing is wrong,
/// a file in front of the rest adds itself and changes nothing else.
pub proof fn law_files_may_stand_anywhere(args: Seq<Seq<char>>, i: int, asked: Asked)
    requires
        0 <= i < args.len(),
        !is_option(args[i]),
    ensures
        asked_from(args, i, asked) == asked_from(
            args,
            i + 1,
            Asked { files: asked.files.push(args[i]), ..asked },
        ),
{
    reveal_strlit("--convert");
    reveal_strlit("--quality");
    reveal_strlit("--out");
}

/// An argument with two dashes is never taken for a file.
pub proof fn law_an_option_is_no_file(args: Seq<Seq<char>>, i: int, asked: Asked)
    requires
        0 <= i < args.len(),
        is_option(args[i]),
        args[i] != "--convert"@,
        args[i] != "--quality"@,
        args[i] != "--out"@,
    ensures
        asked_from(args, i, asked) is Err,
{
}

/// Words that are no options are files.
proof fn lemma_files_follow(args: Seq<Seq<char>>, i: int, asked: Asked)
    requires
        0 <= i <= args.len(),
        forall|k: int| i <= k < args.len() ==> !is_option(#[trigger] args[k]),
    ensures
        asked_from(args, i, asked) == Ok::<Asked, Seq<char>>(
            Asked { files: asked.files + args.skip(i), ..asked },
        ),
    decreases args.len() - i,
{
    if i < args.len() {
        reveal_strlit("--convert");
        reveal_strlit("--quality");
        reveal_strlit("--out");
        let next = Asked { files: asked.files.push(args[i]), ..asked };
        lemma_files_follow(args, i + 1, next);
        assert(next.files + args.skip(i + 1) =~= asked.files + args.skip(i));
    } else {
        assert(asked.files + args.skip(i) =~= asked.files);
    }
}

/// Without options the first file is opened in the viewer, or none if there is none.
pub proof fn law_a_file_alone_is_viewed(args: Seq<Seq<char>>, launch: Result<Launch, String>)
    requires
        launched(args, launch),
        args.len() >= 1,
        forall|k: int|
            1 <= k < args.len() ==> !((#[trigger] args[k]).len() >= 2 && args[k][0] == '-'
                && args[k][1] == '-'),
    ensures
        launch matches Ok(Launch::Viewer(file)) && (match file {
            Some(file) => args.len() >= 2 && file@ == args[1],
            None => args.len() == 1,
        }),
{
    lemma_files_follow(args, 1, nothing());
    assert(nothing().files + args.skip(1) =~= args.skip(1));
}

/// A conversion is what was asked for: the format named, the quality given, the folder given,
/// and the files in their order.
pub proof fn law_a_conversion_is_what_was_asked(
    program: Seq<char>,
    name: Seq<char>,
    quality: nat,
    folder: Seq<char>,
    files: Seq<Seq<char>>,
    launch: Result<Launch, String>,
)
    requires
        launched(
            seq![
                program,
                "--convert"@,
                name,
                "--quality"@,
                text::decimal(quality),
                "--out"@,
                folder,
            ] + files,
            launch,
        ),
        Format::named(name) is Some,
        files.len() > 0,
        forall|k: int|
            0 <= k < files.len() ==> !((#[trigger] files[k]).len() >= 2 && files[k][0] == '-'
                && files[k][1] == '-'),
    ensures
        1 <= quality <= 100 ==> (launch matches Ok(Launch::Convert(request)) && {
            &&& Some(request.format) == Format::named(name)
            &&& request.quality == quality
            &&& request.out_dir is Some
            &&& request.out_dir->0@ == folder
            &&& request.files@.len() == files.len()
            &&& forall|k: int| 0 <= k < files.len() ==> (#[trigger] request.files@[k])@ == files[k]
        }),
        quality == 0 || quality > 100 ==> launch is Err,
{
    let head = seq![
        program,
        "--convert"@,
        name,
        "--quality"@,
        text::decimal(quality),
        "--out"@,
        folder,
    ];
    let args = head + files;
    lemma_words_differ();
    assert(args[1] == "--convert"@ && args[2] == name && args[3] == "--quality"@ && args[4]
        == text::decimal(quality) && args[5] == "--out"@ && args[6] == folder);
    let one = Asked { format: Format::named(name), ..nothing() };
    assert(asked_from(args, 1, nothing()) == asked_from(args, 3, one));
    text::law_only_digits_spell_a_number(quality, 255, text::decimal(quality), 0);
    if 1 <= quality <= 100 {
        let two = Asked { quality: Some(quality as u8), ..one };
        assert(asked_from(args, 3, one) == asked_from(args, 5, two));
        let three = Asked { out_dir: Some(folder), ..two };
        assert(asked_from(args, 5, two) == asked_from(args, 7, three));
        assert forall|k: int| 7 <= k < args.len() implies !is_option(#[trigger] args[k]) by {
            assert(args[k] == files[k - 7]);
        }
        lemma_files_follow(args, 7, three);
        assert(three.files + args.skip(7) =~= files);
        let request = launch->Ok_0->Convert_0;
        assert(texts(request.files@) == files);
        assert forall|k: int| 0 <= k < files.len() implies (#[trigger] request.files@[k])@
            == files[k] by {
            assert(texts(request.files@)[k] == request.files@[k]@);
        }
    }
}

/// Without a quality a conversion is made at ninety, and without a folder one is asked for.
pub proof fn law_a_conversion_may_leave_things_open(
    program: Seq<char>,
    name: Seq<char>,
    files: Seq<Seq<char>>,
    launch: Result<Launch, String>,
)
    requires
        launched(seq![program, "--convert"@, name] + files, launch),
        forall|k: int|
            0 <= k < files.len() ==> !((#[trigger] files[k]).len() >= 2 && files[k][0] == '-'
                && files[k][1] == '-'),
    ensures
        Format::named(name) is Some && files.len() > 0 ==> (launch matches Ok(
            Launch::Convert(request),
        ) && {
            &&& Some(request.format) == Format::named(name)
            &&& request.quality == 90
            &&& request.out_dir is None
            &&& request.files@.len() == files.len()
            &&& forall|k: int| 0 <= k < files.len() ==> (#[trigger] request.files@[k])@ == files[k]
        }),
        Format::named(name) is None || files.len() == 0 ==> launch is Err,
{
    let args = seq![program, "--convert"@, name] + files;
    lemma_words_differ();
    assert(args[1] == "--convert"@ && args[2] == name);
    if Format::named(name) is Some {
        let one = Asked { format: Format::named(name), ..nothing() };
        assert(asked_from(args, 1, nothing()) == asked_from(args, 3, one));
        assert forall|k: int| 3 <= k < args.len() implies !is_option(#[trigger] args[k]) by {
            assert(args[k] == files[k - 3]);
        }
        lemma_files_follow(args, 3, one);
        assert(one.files + args.skip(3) =~= files);
        if files.len() > 0 {
            let request = launch->Ok_0->Convert_0;
            assert(texts(request.files@) == files);
            assert forall|k: int| 0 <= k < files.len() implies (#[trigger] request.files@[k])@
                == files[k] by {
                assert(texts(request.files@)[k] == request.files@[k]@);
            }
        }
    }
}

/// An option without the word that it needs is refused.
pub proof fn law_an_option_needs_its_word(args: Seq<Seq<char>>, i: int, asked: Asked)
    requires
        0 <= i,
        i + 1 == args.len(),
        args[i] == "--convert"@ || args[i] == "--quality"@ || args[i] == "--out"@,
    ensures
        asked_from(args, i, asked) is Err,
{
    lemma_words_differ();
}

proof fn lemma_words_differ()
    ensures
        "--convert"@ != "--quality"@,
        "--convert"@ != "--out"@,
        "--quality"@ != "--out"@,
{
    reveal_strlit("--convert");
    reveal_strlit("--quality");
    reveal_strlit("--out");
    assert("--convert"@[2] == 'c' && "--quality"@[2] == 'q' && "--out"@[2] == 'o');
}

/// Every failure is counted, and nothing else.
pub proof fn law_failures_are_counted(outcomes: Seq<Outcome>)
    ensures
        failures(outcomes, outcomes.len() as int) == outcomes.filter(
            |outcome: Outcome| outcome is Failed,
        ).len(),
    decreases outcomes.len(),
{
    let way = |outcome: Outcome| outcome is Failed;
    reveal(Seq::filter);
    if outcomes.len() > 0 {
        let front = outcomes.drop_last();
        law_failures_are_counted(front);
        lemma_failures_of_a_front(outcomes, front, front.len() as int);
    }
}

proof fn lemma_failures_of_a_front(outcomes: Seq<Outcome>, front: Seq<Outcome>, n: int)
    requires
        0 <= n <= front.len() <= outcomes.len(),
        forall|i: int| 0 <= i < front.len() ==> front[i] == outcomes[i],
    ensures
        failures(outcomes, n) == failures(front, n),
        failure_lines(outcomes, n) == failure_lines(front, n),
    decreases n,
{
    if n > 0 {
        lemma_failures_of_a_front(outcomes, front, n - 1);
    }
}

/// Each failure has a line of its own, with the name of the file and what went wrong, in the
/// order of the files. What went well has none.
pub proof fn law_every_failure_has_its_line(outcomes: Seq<Outcome>, last: Outcome)
    ensures
        failure_lines(outcomes.push(last), outcomes.len() + 1int) == (match last {
            Outcome::Converted { .. } => failure_lines(outcomes, outcomes.len() as int),
            Outcome::Failed { source, reason } => {
                let name = path::name_of(source@);
                failure_lines(outcomes, outcomes.len() as int) + seq!['\n'] + (if name is Some {
                    name->0
                } else {
                    source@
                }) + seq![' ', '\u{2014}', ' '] + reason@
            },
        }),
        failure_lines(Seq::empty(), 0) == Seq::<char>::empty(),
{
    reveal_strlit("\n");
    reveal_strlit(" \u{2014} ");
    let all = outcomes.push(last);
    lemma_failures_of_a_front(all, outcomes, outcomes.len() as int);
    assert(all[outcomes.len() as int] == last);
    if let Outcome::Failed { source, reason } = last {
        let front = failure_lines(outcomes, outcomes.len() as int);
        let name = match path::name_of(source@) {
            Some(name) => name,
            None => source@,
        };
        assert(front + ("\n"@ + name + " \u{2014} "@ + reason@) =~= front + seq!['\n'] + name
            + seq![' ', '\u{2014}', ' '] + reason@);
    }
}

/// A line of progress counts the files from one to the last, and says of each where it went and
/// what became of its size, or which it was and what went wrong.
pub proof fn law_progress_tells_what_came_of_a_file(done: nat, total: nat, outcome: Outcome)
    ensures
        ({
            let count = seq!['['] + text::decimal(done) + seq!['/'] + text::decimal(total)
                + seq![']', ' '];
            let dash = seq![' ', '\u{2014}', ' '];
            match outcome {
                Outcome::Converted { destination, bytes, source_bytes, .. } => progress_of(
                    done,
                    total,
                    outcome,
                ) == count + destination@ + dash + sizes::bytes_in_words(source_bytes) + seq![
                    ' ',
                    't',
                    'o',
                    ' ',
                ] + sizes::bytes_in_words(bytes) + sizes::saving_in_words(source_bytes, bytes),
                Outcome::Failed { source, reason } => progress_of(done, total, outcome) == count
                    + source@ + dash + seq!['F', 'A', 'I', 'L', 'E', 'D', ':', ' '] + reason@,
            }
        }),
{
    reveal_strlit("[");
    reveal_strlit("/");
    reveal_strlit("] ");
    reveal_strlit(" \u{2014} ");
    reveal_strlit(" to ");
    reveal_strlit(" \u{2014} FAILED: ");
}

/// One thing is one, and any other count is several.
pub proof fn law_only_one_is_singular(count: nat)
    ensures
        count == 1 ==> plural(count) == Seq::<char>::empty(),
        count != 1 ==> plural(count) == seq!['s'],
{
    reveal_strlit("");
    reveal_strlit("s");
}

/// A refusal says what is missing or what is wrong.
pub proof fn law_a_refusal_says_what_is_missing(
    args: Seq<Seq<char>>,
    i: int,
    asked: Asked,
    number: nat,
)
    requires
        0 <= i < args.len(),
    ensures
        i + 1 == args.len() && args[i] == "--convert"@ ==> asked_from(args, i, asked) == Err::<
            Asked,
            Seq<char>,
        >("--convert needs a format, one of: png jpg webp bmp ico"@),
        i + 1 == args.len() && args[i] == "--quality"@ ==> asked_from(args, i, asked) == Err::<
            Asked,
            Seq<char>,
        >("--quality needs a number from 1 to 100"@),
        i + 1 == args.len() && args[i] == "--out"@ ==> asked_from(args, i, asked) == Err::<
            Asked,
            Seq<char>,
        >("--out needs a directory"@),
        i + 1 < args.len() && args[i] == "--convert"@ && Format::named(args[i + 1]) is None
            ==> asked_from(args, i, asked) == Err::<Asked, Seq<char>>(
            "cannot write "@ + quoted_of(args[i + 1]) + "; try png jpg webp bmp ico"@,
        ),
        i + 1 < args.len() && args[i] == "--quality"@ && text::number_in(args[i + 1], 255) is None
            ==> asked_from(args, i, asked) == Err::<Asked, Seq<char>>(
            "--quality wants a number from 1 to 100, not "@ + quoted_of(args[i + 1]),
        ),
        i + 1 < args.len() && args[i] == "--quality"@ && args[i + 1] == text::decimal(number) && (
        number == 0 || 100 < number <= 255) ==> asked_from(args, i, asked) == Err::<
            Asked,
            Seq<char>,
        >("--quality is 1 to 100, not "@ + text::decimal(number)),
        is_option(args[i]) && args[i] != "--convert"@ && args[i] != "--quality"@ && args[i]
            != "--out"@ ==> asked_from(args, i, asked) == Err::<Asked, Seq<char>>(
            "unknown option "@ + args[i],
        ),
{
    lemma_words_differ();
    text::law_only_digits_spell_a_number(number, 255, text::decimal(number), 0);
}

/// A conversion of no files is refused in these words.
pub proof fn law_a_conversion_needs_a_file(
    program: Seq<char>,
    name: Seq<char>,
    launch: Result<Launch, String>,
)
    requires
        launched(seq![program, "--convert"@, name], launch),
        Format::named(name) is Some,
    ensures
        launch matches Err(said) && said@ == "--convert needs at least one file"@,
{
    let args = seq![program, "--convert"@, name];
    lemma_words_differ();
    let one = Asked { format: Format::named(name), ..nothing() };
    assert(asked_from(args, 1, nothing()) == asked_from(args, 3, one));
}

} // verus!
