//! One run of the tool: what is done with one file, and how a batch of files goes
//! on after a failure.
//!
//! Nothing here reads or writes a file. The caller does that, is told each time
//! what to do next, and hands back what came of it. The same holds of a call of
//! an encoder that is not known to come back, as the WebP encoder is not for
//! every image: the call is handed out with its settings.

use vstd::prelude::*;
use vstd::std_specs::convert::FromSpecImpl;
use vstd::string::StringExecFns;
use caesium::error::CaesiumError;
use caesium::parameters::CSParameters;
use caesium::SupportedFileTypes;
use crate::codec::{
    encoder_failure, error_text, has_webp_mark, is_webp_side, natural_size, probe, sides_within,
    webp_marked, MAX_SIDE, SAME_FORMAT, WEBP_MAX_SIDE,
};
use crate::error::ImageProcessError;
use crate::options::{CliOptions, ResizeRule};
use crate::paths::{make_path, option_view, output_path};
use crate::resize::{resolve, target_of, NaturalSize, ResizeArgs};
use crate::settings::{file_type_of, parameters_of};

verus! {

/// What a run works with: the options, and what they mean for the encoders.
pub struct RunConfiguration {
    /// The format to convert to; without it each image keeps its format.
    pub target_format: Option<SupportedFileTypes>,
    /// The settings of the encoders, before any target size is set.
    pub caesium_parameters: CSParameters,
    pub options: CliOptions,
}

impl From<CliOptions> for RunConfiguration {
    fn from(options: CliOptions) -> (r: Self) {
        Self {
            target_format: match options.target_format {
                Some(v) => Some(v.file_type()),
                None => None,
            },
            caesium_parameters: options.parameters(),
            options,
        }
    }
}

impl FromSpecImpl<CliOptions> for RunConfiguration {
    open spec fn obeys_from_spec() -> bool {
        true
    }

    open spec fn from_spec(options: CliOptions) -> Self {
        RunConfiguration {
            target_format: match options.target_format {
                Some(v) => Some(file_type_of(v)),
                None => None,
            },
            caesium_parameters: parameters_of(options),
            options,
        }
    }
}

/// A run that is ready to start.
pub struct Runner {
    pub run_configuration: RunConfiguration,
}

impl From<RunConfiguration> for Runner {
    fn from(run_configuration: RunConfiguration) -> (r: Self) {
        Self { run_configuration }
    }
}

impl FromSpecImpl<RunConfiguration> for Runner {
    open spec fn obeys_from_spec() -> bool {
        true
    }

    open spec fn from_spec(run_configuration: RunConfiguration) -> Self {
        Runner { run_configuration }
    }
}

/// The settings `parameters` with the target size that `args` ask for an image of
/// the size that `data` states.
pub open spec fn sized(parameters: CSParameters, args: ResizeArgs, data: Seq<u8>) -> Result<
    CSParameters,
    Seq<char>,
> {
    match natural_size(data) {
        Err(text) => Err(text),
        Ok(size) => Ok(
            CSParameters {
                width: target_of(args, size).width,
                height: target_of(args, size).height,
                ..parameters
            },
        ),
    }
}

/// The settings with which the image in `data` is encoded in a run with the
/// configuration `c`: those of the configuration, and with a resize rule the
/// target size for this image.
pub open spec fn effective_parameters(c: RunConfiguration, data: Seq<u8>) -> Result<
    CSParameters,
    Seq<char>,
> {
    if c.options.resize_args.rule == ResizeRule::NoResize {
        Ok(c.caesium_parameters)
    } else {
        sized(c.caesium_parameters, c.options.resize_args, data)
    }
}

/// A call of an encoder.
#[derive(Clone, Copy)]
pub enum Call {
    /// The image is compressed in the format that it has.
    Compress,
    /// The image is converted to this format.
    Convert(SupportedFileTypes),
}

/// A call of an encoder that is to be made for an image: the call, and the
/// settings that are handed to it.
#[derive(Clone, Copy)]
pub struct Request {
    pub call: Call,
    pub parameters: CSParameters,
}

/// A call that is handed out to be made by the program: the data of the image,
/// and the request.
pub struct Task {
    pub data: Vec<u8>,
    pub request: Request,
}

/// Whether the library makes the call of `request` for `data` itself. It does so
/// where the encoder is known to come back from the call: with a target size
/// within `MAX_SIDE`, the compression of data without the mark of WebP, the
/// conversion to another format than WebP, and the conversion to WebP with a
/// quality of at most 100 and both sides of the target given as sides that the
/// WebP encoder takes. Every other call is handed out as it is.
pub open spec fn is_inside(request: Request, data: Seq<u8>) -> bool {
    sides_within(request.parameters) && match request.call {
        Call::Compress => !has_webp_mark(data),
        Call::Convert(format) => format != SupportedFileTypes::WebP || (
        request.parameters.webp.quality <= 100 && is_webp_side(request.parameters.width)
            && is_webp_side(request.parameters.height)),
    }
}

/// The call with which a run with the configuration `c` begins: a conversion
/// where it has a target format, a compression where it has none.
pub open spec fn first_call_of(c: RunConfiguration) -> Call {
    match c.target_format {
        Some(format) => Call::Convert(format),
        None => Call::Compress,
    }
}

/// The first request for the image in `data` in a run with the configuration
/// `c`, with the settings that are worked out for this image, or why there is
/// none: the size of the image is needed and cannot be read.
pub open spec fn first_request(c: RunConfiguration, data: Seq<u8>) -> Result<Request, Seq<char>> {
    match effective_parameters(c, data) {
        Err(text) => Err(text),
        Ok(parameters) => Ok(Request { call: first_call_of(c), parameters }),
    }
}

/// The request that follows the conversion `first` where that says that the
/// image has the target format already: the compression with the same settings.
pub open spec fn compression_after(first: Request) -> Request {
    Request { call: Call::Compress, parameters: first.parameters }
}

/// What came of a call, or of the calls so far.
pub enum Encoding {
    /// The image is encoded in these bytes.
    Done(Vec<u8>),
    /// The image has failed.
    Failed(ImageProcessError),
    /// This call is to be made next.
    Next(Request),
}

/// An encoding, with its bytes and its text as they are.
pub enum EncodingView {
    Done(Seq<u8>),
    Failed(Seq<char>),
    Next(Request),
}

impl View for Encoding {
    type V = EncodingView;

    open spec fn view(&self) -> EncodingView {
        match self {
            Encoding::Done(bytes) => EncodingView::Done(bytes@),
            Encoding::Failed(e) => EncodingView::Failed(e@),
            Encoding::Next(request) => EncodingView::Next(*request),
        }
    }
}

/// What follows the call of `request` when it has given `result`: bytes are the
/// encoding, and an error is a failure that reads as `error_text` says, but for
/// the error of a conversion that says that the image has the target format
/// already. That error is kept from the caller: the compression with the same
/// settings is next.
pub open spec fn after_call_of(request: Request, result: Result<Vec<u8>, CaesiumError>) -> EncodingView {
    match result {
        Ok(bytes) => EncodingView::Done(bytes@),
        Err(err) => if request.call is Convert && err.code == SAME_FORMAT {
            EncodingView::Next(compression_after(request))
        } else {
            EncodingView::Failed(error_text(err.message@, err.code))
        },
    }
}

/// What comes of the request `request` for `data`, as far as the library takes
/// it, where the calls that the library makes give `first` and then `second`.
/// Where the library does not make the call of `request`, the request itself is
/// next. Else the call is made and gives `first`; and where the compression
/// follows and the library makes that call too, it is made and gives `second`.
pub open spec fn encoding_of(
    request: Request,
    data: Seq<u8>,
    first: Result<Vec<u8>, CaesiumError>,
    second: Result<Vec<u8>, CaesiumError>,
) -> EncodingView {
    if !is_inside(request, data) {
        EncodingView::Next(request)
    } else {
        match after_call_of(request, first) {
            EncodingView::Next(next) => if is_inside(next, data) {
                after_call_of(next, second)
            } else {
                EncodingView::Next(next)
            },
            done => done,
        }
    }
}

/// Whether `e` is what comes of the request `request` for `data` as far as the
/// library takes it, whatever the encoders give.
pub open spec fn is_taken(e: EncodingView, request: Request, data: Seq<u8>) -> bool {
    exists|first: Result<Vec<u8>, CaesiumError>, second: Result<Vec<u8>, CaesiumError>|
        e == #[trigger] encoding_of(request, data, first, second)
}

/// Whether `e` is what comes of the image in `data` in a run with the
/// configuration `c`, as far as the library takes it: a failure where there is
/// no first request, and else what comes of that request.
pub open spec fn is_encoding_of(e: EncodingView, c: RunConfiguration, data: Seq<u8>) -> bool {
    match first_request(c, data) {
        Err(text) => e == EncodingView::Failed(text),
        Ok(request) => is_taken(e, request, data),
    }
}

/// Whether `step` is what is to be done for a file once the encoding `e` of its
/// data `data` has come so far: a failure ends the file; bytes are written, after
/// the input file is deleted where `delete_origin` is set; and a call that is to
/// be made next is handed out with the data.
pub open spec fn is_step_of(step: Step, e: EncodingView, data: Seq<u8>, delete_origin: bool) -> bool {
    match e {
        EncodingView::Failed(text) => step matches Step::Fail(f) && f@ == text,
        EncodingView::Done(bytes) => if delete_origin {
            step matches Step::Delete(b) && b@ == bytes
        } else {
            step matches Step::Write(b) && b@ == bytes
        },
        EncodingView::Next(request) => step matches Step::Encode(task) && task.data@ == data
            && task.request == request,
    }
}

/// Whether `step` is what is to be done for a file once the request `request`
/// for its data `data` is taken as far as the library takes it, whatever the
/// encoders give.
pub open spec fn is_step_after(step: Step, request: Request, data: Seq<u8>, delete_origin: bool) -> bool {
    exists|first: Result<Vec<u8>, CaesiumError>, second: Result<Vec<u8>, CaesiumError>|
        is_step_of(step, #[trigger] encoding_of(request, data, first, second), data, delete_origin)
}

/// What is to be done for a file once its data is encoded, or once it is known
/// that it cannot be.
pub enum Step {
    /// Delete the input file, and hand what that gave to `after_delete`.
    Delete(Vec<u8>),
    /// Write these bytes to the output file; what that gives is the result for
    /// the file.
    Write(Vec<u8>),
    /// The file has failed, and nothing is written.
    Fail(ImageProcessError),
    /// Make this call of an encoder, and hand the task and what the call gave to
    /// `after_encode`.
    Encode(Task),
}

impl Runner {
    /// Sets the target size that `resize_args` ask for the image in `data`. Where
    /// the size of the image cannot be read, the settings stay as they are.
    pub fn set_scaled_size(
        caesium_parameters: &mut CSParameters,
        resize_args: &ResizeArgs,
        data: &Vec<u8>,
    ) -> (r: Result<(), ImageProcessError>)
        ensures
            match r {
                Ok(_) => sized(*old(caesium_parameters), *resize_args, data@) == Ok::<
                    CSParameters,
                    Seq<char>,
                >(*final(caesium_parameters)),
                Err(e) => sized(*old(caesium_parameters), *resize_args, data@) == Err::<
                    CSParameters,
                    Seq<char>,
                >(e@) && *final(caesium_parameters) == *old(caesium_parameters),
            },
    {
        let image_size = match probe(data) {
            Ok(size) => size,
            Err(e) => { return Err(e); },
        };
        let target = resolve(resize_args, image_size);
        caesium_parameters.width = target.width;
        caesium_parameters.height = target.height;
        Ok(())
    }

    /// The settings with which the image in `data` is encoded.
    pub fn prepare(run_configuration: &RunConfiguration, data: &Vec<u8>) -> (r: Result<
        CSParameters,
        ImageProcessError,
    >)
        ensures
            match r {
                Ok(p) => effective_parameters(*run_configuration, data@) == Ok::<
                    CSParameters,
                    Seq<char>,
                >(p),
                Err(e) => effective_parameters(*run_configuration, data@) == Err::<
                    CSParameters,
                    Seq<char>,
                >(e@),
            },
    {
        let mut caesium_parameters = run_configuration.caesium_parameters;
        let resize_args = &run_configuration.options.resize_args;
        if resize_args.rule != ResizeRule::NoResize {
            match Self::set_scaled_size(&mut caesium_parameters, resize_args, data) {
                Ok(_) => {},
                Err(e) => { return Err(e); },
            }
        }
        Ok(caesium_parameters)
    }

    /// Whether the library makes the call of `request` for `data` itself.
    pub fn makes(request: &Request, data: &Vec<u8>) -> (r: bool)
        ensures
            r == is_inside(*request, data@),
    {
        let p = &request.parameters;
        p.width <= MAX_SIDE && p.height <= MAX_SIDE && match request.call {
            Call::Compress => !webp_marked(data),
            Call::Convert(SupportedFileTypes::WebP) => p.webp.quality <= 100 && 1 <= p.width
                && p.width <= WEBP_MAX_SIDE && 1 <= p.height && p.height <= WEBP_MAX_SIDE,
            Call::Convert(_) => true,
        }
    }

    /// The first request for the image in `data` in a run with the configuration
    /// `run_configuration`, or the error that says why there is none.
    pub fn first_call(run_configuration: &RunConfiguration, data: &Vec<u8>) -> (r: Result<
        Request,
        ImageProcessError,
    >)
        ensures
            match r {
                Ok(request) => first_request(*run_configuration, data@) == Ok::<
                    Request,
                    Seq<char>,
                >(request),
                Err(e) => first_request(*run_configuration, data@) == Err::<Request, Seq<char>>(e@),
            },
    {
        let parameters = match Self::prepare(run_configuration, data) {
            Ok(parameters) => parameters,
            Err(e) => { return Err(e); },
        };
        let call = match run_configuration.target_format {
            Some(format) => Call::Convert(format),
            None => Call::Compress,
        };
        Ok(Request { call, parameters })
    }

    /// What follows the call of `request` when it has given `result`.
    pub fn after_call(request: &Request, result: Result<Vec<u8>, CaesiumError>) -> (r: Encoding)
        ensures
            r@ == after_call_of(*request, result),
    {
        match result {
            Ok(bytes) => Encoding::Done(bytes),
            Err(err) => match request.call {
                Call::Convert(_) if err.code == SAME_FORMAT => Encoding::Next(
                    Request { call: Call::Compress, parameters: request.parameters },
                ),
                _ => Encoding::Failed(encoder_failure(&err)),
            },
        }
    }

    /// Takes `request` as far as the library takes it: it is handed back where
    /// the library does not make the call; else the call is made, and after a
    /// conversion that says that the image has the target format already the
    /// same data is compressed with the same settings, where the library makes
    /// that call.
    pub fn take(request: Request, data: &Vec<u8>) -> (r: Encoding)
        ensures
            is_taken(r@, request, data@),
    {
        if !Self::makes(&request, data) {
            let ghost none: Result<Vec<u8>, CaesiumError> = arbitrary();
            assert(EncodingView::Next(request) == encoding_of(request, data@, none, none));
            return Encoding::Next(request);
        }
        let result = match request.call {
            Call::Compress => caesium::compress_in_memory(data.clone(), &request.parameters),
            Call::Convert(format) => caesium::convert_in_memory(
                data.clone(),
                &request.parameters,
                format,
            ),
        };
        let ghost first = result;
        match Self::after_call(&request, result) {
            Encoding::Next(next) => {
                if Self::makes(&next, data) {
                    let result = caesium::compress_in_memory(data.clone(), &next.parameters);
                    let ghost second = result;
                    let encoding = Self::after_call(&next, result);
                    assert(encoding@ == encoding_of(request, data@, first, second));
                    encoding
                } else {
                    assert(EncodingView::Next(next) == encoding_of(request, data@, first, first));
                    Encoding::Next(next)
                }
            },
            other => {
                assert(other@ == encoding_of(request, data@, first, first));
                other
            },
        }
    }

    /// Encodes the image in `origin_data` for this run, as far as the library
    /// takes it. With a target format the image is converted, and compressed
    /// where the conversion says that it has that format already; without one it
    /// is compressed. A call that the library does not make itself is handed out
    /// as the call that is to be made next.
    pub fn run_process(origin_data: &Vec<u8>, run_configuration: &RunConfiguration) -> (r: Encoding)
        ensures
            is_encoding_of(r@, *run_configuration, origin_data@),
    {
        match Self::first_call(run_configuration, origin_data) {
            Err(e) => Encoding::Failed(e),
            Ok(request) => Self::take(request, origin_data),
        }
    }

    /// What is to be done for a file once the encoding of its data `data` has
    /// come as far as `encoding`.
    pub fn step_of(encoding: Encoding, data: Vec<u8>, delete_origin: bool) -> (step: Step)
        ensures
            is_step_of(step, encoding@, data@, delete_origin),
    {
        match encoding {
            Encoding::Failed(e) => Step::Fail(e),
            Encoding::Done(bytes) => if delete_origin {
                Step::Delete(bytes)
            } else {
                Step::Write(bytes)
            },
            Encoding::Next(request) => Step::Encode(Task { data, request }),
        }
    }

    /// What is to be done for a file once it is read, or could not be read. A file
    /// that could not be read has failed with that error, and so has one whose
    /// size is needed and cannot be read. Else the first request is taken as far
    /// as the library takes it: where the library does not make the call, the
    /// step hands it out.
    pub fn process(&self, read: Result<Vec<u8>, ImageProcessError>) -> (step: Step)
        ensures
            match read {
                Err(e) => step matches Step::Fail(f) && f@ == e@,
                Ok(data) => match first_request(self.run_configuration, data@) {
                    Err(text) => step matches Step::Fail(f) && f@ == text,
                    Ok(request) => is_step_after(
                        step,
                        request,
                        data@,
                        self.run_configuration.options.delete_origin,
                    ),
                },
            },
    {
        match read {
            Err(e) => Step::Fail(e),
            Ok(origin_data) => {
                let encoding = Self::run_process(&origin_data, &self.run_configuration);
                Self::step_of(encoding, origin_data, self.run_configuration.options.delete_origin)
            },
        }
    }

    /// What is to be done for a file once a call that was handed out has given
    /// `result`: bytes and a failure go on as `step_of` says, and the
    /// compression that follows a conversion is taken as far as the library
    /// takes it.
    pub fn after_encode(&self, task: Task, result: Result<Vec<u8>, CaesiumError>) -> (step: Step)
        ensures
            match after_call_of(task.request, result) {
                EncodingView::Next(next) => is_step_after(
                    step,
                    next,
                    task.data@,
                    self.run_configuration.options.delete_origin,
                ),
                done => is_step_of(
                    step,
                    done,
                    task.data@,
                    self.run_configuration.options.delete_origin,
                ),
            },
    {
        let encoding = match Self::after_call(&task.request, result) {
            Encoding::Next(next) => Self::take(next, &task.data),
            other => other,
        };
        Self::step_of(encoding, task.data, self.run_configuration.options.delete_origin)
    }

    /// What is to be done once the input file is deleted, or could not be: where
    /// it could not, the file has failed and nothing is written.
    pub fn after_delete(deleted: Result<(), ImageProcessError>, bytes: Vec<u8>) -> (step: Step)
        ensures
            match deleted {
                Err(e) => step matches Step::Fail(f) && f@ == e@,
                Ok(_) => step matches Step::Write(b) && b@ == bytes@,
            },
    {
        match deleted {
            Err(e) => Step::Fail(e),
            Ok(_) => Step::Write(bytes),
        }
    }

    /// How the run goes about its input, from what input and output are.
    pub fn plan(&self, input_kind: PathKind, output_kind: PathKind) -> (plan: Plan)
        ensures
            plan@ == plan_of(self.run_configuration.options, input_kind, output_kind),
    {
        let options = &self.run_configuration.options;
        match input_kind {
            PathKind::Missing => {
                let mut msg = "File or dir not exists: ".to_owned();
                msg.append(options.input.as_str());
                Plan::Fail(ImageProcessError::new(msg))
            },
            PathKind::File => {
                if output_kind == PathKind::Directory {
                    Plan::Single(self.output_file(options.input.as_str()))
                } else {
                    Plan::Single(options.output.clone())
                }
            },
            _ => match output_kind {
                PathKind::Missing => Plan::Batch(true),
                PathKind::File => {
                    let mut msg =
                        "When input is a dir, output should also be a dir, but given a file: ".to_owned();
                    msg.append(options.output.as_str());
                    Plan::Fail(ImageProcessError::new(msg))
                },
                _ => Plan::Batch(false),
            },
        }
    }

    /// The path of the output file, in the output directory, for the input file
    /// at the path `input_file`.
    pub fn output_file(&self, input_file: &str) -> (r: String)
        ensures
            r@ == output_path(
                input_file@,
                self.run_configuration.options.output@,
                option_view(&self.run_configuration.options.prefix),
                option_view(&self.run_configuration.options.suffix),
            ),
    {
        let options = &self.run_configuration.options;
        make_path(input_file, options.output.as_str(), &options.prefix, &options.suffix)
    }

    /// The batch in which the files of `plan` are processed: a single file is a
    /// batch of one, a directory a batch of its `listed` regular files, and a
    /// plan that has failed a batch of none.
    pub fn batch_of(&self, plan: &Plan, listed: usize) -> (b: Batch)
        ensures
            b@ == start_of(
                files_in(plan@, listed as nat),
                self.run_configuration.options.continue_on_error,
            ),
    {
        let total: usize = match plan {
            Plan::Fail(_) => 0,
            Plan::Single(_) => 1,
            Plan::Batch(_) => listed,
        };
        self.batch(total)
    }

    /// The batch of this run over `total` files.
    pub fn batch(&self, total: usize) -> (b: Batch)
        ensures
            b@ == start_of(total as nat, self.run_configuration.options.continue_on_error),
    {
        Batch::new(total, self.run_configuration.options.continue_on_error)
    }
}

/// A conversion that says that the image has the target format already never
/// fails the file with that error: whatever else the error holds, the
/// compression of the same data with the same settings is next, and the bytes
/// that the compression gives are the encoding. The library makes that call
/// where it makes such calls, and hands it out where it does not.
pub proof fn same_format_falls_back(
    request: Request,
    data: Seq<u8>,
    first: Result<Vec<u8>, CaesiumError>,
    second: Result<Vec<u8>, CaesiumError>,
)
    requires
        request.call is Convert,
        first matches Err(err) && err.code == SAME_FORMAT,
    ensures
        after_call_of(request, first) == EncodingView::Next(compression_after(request)),
        !(after_call_of(compression_after(request), second) is Next),
        second matches Ok(bytes) ==> after_call_of(compression_after(request), second)
            == EncodingView::Done(bytes@),
        is_inside(request, data) ==> encoding_of(request, data, first, second) == (if is_inside(
            compression_after(request),
            data,
        ) {
            after_call_of(compression_after(request), second)
        } else {
            EncodingView::Next(compression_after(request))
        }),
{
}

/// What a path names.
#[derive(Copy, Clone, Debug, PartialEq, Eq, Structural)]
pub enum PathKind {
    /// Nothing is there.
    Missing,
    /// A regular file.
    File,
    Directory,
    /// Something that is neither a regular file nor a directory.
    Other,
}

/// How a run goes about its input.
pub enum Plan {
    /// The run ends with this error before any file is touched.
    Fail(ImageProcessError),
    /// The input is one file, a batch of one, and its result goes to this path.
    Single(String),
    /// The input is a directory: its regular files are processed one by one into
    /// the output directory, which is created first where this says so.
    Batch(bool),
}

/// A plan, with its texts as characters.
pub enum PlanView {
    Fail(Seq<char>),
    Single(Seq<char>),
    Batch(bool),
}

impl View for Plan {
    type V = PlanView;

    open spec fn view(&self) -> PlanView {
        match self {
            Plan::Fail(e) => PlanView::Fail(e@),
            Plan::Single(path) => PlanView::Single(path@),
            Plan::Batch(create) => PlanView::Batch(*create),
        }
    }
}

/// How a run with the options `o` goes about its input. There must be an input.
/// A single file goes to the output path itself, unless that is a directory, in
/// which the file then gets its derived name. Anything else is taken for a
/// directory, whose output must not be a regular file.
pub open spec fn plan_of(o: CliOptions, input_kind: PathKind, output_kind: PathKind) -> PlanView {
    match input_kind {
        PathKind::Missing => PlanView::Fail("File or dir not exists: "@ + o.input@),
        PathKind::File => if output_kind == PathKind::Directory {
            PlanView::Single(
                output_path(o.input@, o.output@, option_view(&o.prefix), option_view(&o.suffix)),
            )
        } else {
            PlanView::Single(o.output@)
        },
        _ => match output_kind {
            PathKind::Missing => PlanView::Batch(true),
            PathKind::File => PlanView::Fail(
                "When input is a dir, output should also be a dir, but given a file: "@ + o.output@,
            ),
            _ => PlanView::Batch(false),
        },
    }
}

/// The number of files that a plan has to process, where the input directory
/// lists `listed` regular files.
pub open spec fn files_in(plan: PlanView, listed: nat) -> nat {
    match plan {
        PlanView::Fail(_) => 0,
        PlanView::Single(_) => 1,
        PlanView::Batch(_) => listed,
    }
}

/// The positions of the regular files in a listing, in its order.
pub open spec fn files_of(listing: Seq<PathKind>) -> Seq<usize>
    decreases listing.len(),
{
    if listing.len() == 0 {
        Seq::<usize>::empty()
    } else if listing.last() == PathKind::File {
        files_of(listing.drop_last()).push((listing.len() - 1) as usize)
    } else {
        files_of(listing.drop_last())
    }
}

/// The input files of a batch: the regular files of the input directory, in the
/// order in which the directory lists them. `listing` says what each entry of the
/// directory is; the files are given by their positions in it.
pub fn input_files(listing: &Vec<PathKind>) -> (files: Vec<usize>)
    ensures
        files@ == files_of(listing@),
{
    let mut files: Vec<usize> = Vec::new();
    let mut i: usize = 0;
    assert(listing@.take(0) =~= Seq::<PathKind>::empty());
    while i < listing.len()
        invariant
            i <= listing.len(),
            files@ == files_of(listing@.take(i as int)),
        decreases listing.len() - i,
    {
        assert(listing@.take(i + 1).drop_last() =~= listing@.take(i as int));
        if listing[i] == PathKind::File {
            files.push(i);
        }
        i += 1;
    }
    assert(listing@.take(i as int) =~= listing@);
    files
}

/// How far a batch has come.
pub struct BatchView {
    /// The number of files of the batch.
    pub total: nat,
    pub continue_on_error: bool,
    /// The number of files that have been processed.
    pub done: nat,
    /// The error with which the batch has failed fast, if it has.
    pub failure: Option<Seq<char>>,
}

/// A batch before its first file.
pub open spec fn start_of(total: nat, continue_on_error: bool) -> BatchView {
    BatchView { total, continue_on_error, done: 0, failure: None }
}

/// Whether the batch has come to an end: it has failed fast, or no file is left.
pub open spec fn is_finished(b: BatchView) -> bool {
    b.failure is Some || b.done >= b.total
}

/// The batch once its next file has given `result`, which is the error of the
/// file if it failed. Without `continue_on_error` that error ends the batch.
pub open spec fn record_of(b: BatchView, result: Option<Seq<char>>) -> BatchView {
    if is_finished(b) {
        b
    } else {
        BatchView {
            done: b.done + 1,
            failure: if b.continue_on_error {
                None
            } else {
                result
            },
            ..b
        }
    }
}

/// The error that is reported, and no more, when the next file of the batch has
/// given `result`.
pub open spec fn report_of(b: BatchView, result: Option<Seq<char>>) -> Option<Seq<char>> {
    if !is_finished(b) && b.continue_on_error {
        result
    } else {
        None
    }
}

/// The batch `b` once its files have given `results`, one after the other. What
/// is left of `results` when the batch has come to an end is never asked for.
pub open spec fn run_of(b: BatchView, results: Seq<Option<Seq<char>>>) -> BatchView
    decreases results.len(),
{
    if results.len() == 0 {
        b
    } else {
        record_of(run_of(b, results.drop_last()), results.last())
    }
}

/// The errors that are reported while the files of `b` give `results`, each with
/// the number of its file.
pub open spec fn reports_of(b: BatchView, results: Seq<Option<Seq<char>>>) -> Seq<
    (nat, Seq<char>),
>
    decreases results.len(),
{
    if results.len() == 0 {
        Seq::<(nat, Seq<char>)>::empty()
    } else {
        let before = run_of(b, results.drop_last());
        match report_of(before, results.last()) {
            Some(text) => reports_of(b, results.drop_last()).push((before.done, text)),
            None => reports_of(b, results.drop_last()),
        }
    }
}

/// The failures among `results`, each with its position.
pub open spec fn failures_of(results: Seq<Option<Seq<char>>>) -> Seq<(nat, Seq<char>)>
    decreases results.len(),
{
    if results.len() == 0 {
        Seq::<(nat, Seq<char>)>::empty()
    } else {
        match results.last() {
            Some(text) => failures_of(results.drop_last()).push(
                ((results.len() - 1) as nat, text),
            ),
            None => failures_of(results.drop_last()),
        }
    }
}

/// How a batch has ended.
pub open spec fn outcome_of(b: BatchView) -> Option<Result<(), Seq<char>>> {
    match b.failure {
        Some(text) => Some(Err(text)),
        None => if b.done >= b.total {
            Some(Ok(()))
        } else {
            None
        },
    }
}

/// The error of a result, as characters.
pub open spec fn failure_of(result: Result<(), ImageProcessError>) -> Option<Seq<char>> {
    match result {
        Ok(_) => None,
        Err(e) => Some(e@),
    }
}

/// A batch of files that are processed one by one.
pub struct Batch {
    total: usize,
    continue_on_error: bool,
    done: usize,
    failure: Option<ImageProcessError>,
}

impl View for Batch {
    type V = BatchView;

    closed spec fn view(&self) -> BatchView {
        BatchView {
            total: self.total as nat,
            continue_on_error: self.continue_on_error,
            done: self.done as nat,
            failure: match self.failure {
                Some(e) => Some(e@),
                None => None,
            },
        }
    }
}

impl Batch {
    /// A batch has not processed more files than it has.
    #[verifier::type_invariant]
    spec fn within_total(self) -> bool {
        self.done <= self.total
    }

    pub fn new(total: usize, continue_on_error: bool) -> (b: Self)
        ensures
            b@ == start_of(total as nat, continue_on_error),
    {
        Batch { total, continue_on_error, done: 0, failure: None }
    }

    /// The number of the file that is to be processed now, counted from 0, or
    /// nothing when the batch has come to an end.
    pub fn next(&self) -> (r: Option<usize>)
        ensures
            match r {
                Some(i) => !is_finished(self@) && i == self@.done && i < self@.total,
                None => is_finished(self@),
            },
    {
        if self.failure.is_some() || self.done >= self.total {
            None
        } else {
            Some(self.done)
        }
    }

    /// Takes note of what the file that `next` named has given. What comes back
    /// is the error that is to be reported, where the batch goes on after it.
    pub fn record(&mut self, result: Result<(), ImageProcessError>) -> (report: Option<
        ImageProcessError,
    >)
        ensures
            final(self)@ == record_of(old(self)@, failure_of(result)),
            match report {
                Some(e) => report_of(old(self)@, failure_of(result)) == Some(e@),
                None => report_of(old(self)@, failure_of(result)) is None,
            },
    {
        if self.failure.is_some() || self.done >= self.total {
            return None;
        }
        self.done = self.done + 1;
        match result {
            Ok(_) => None,
            Err(e) => {
                if self.continue_on_error {
                    Some(e)
                } else {
                    self.failure = Some(e);
                    None
                }
            },
        }
    }

    /// How the batch has ended, or nothing while files are left.
    pub fn finish(self) -> (r: Option<Result<(), ImageProcessError>>)
        ensures
            match r {
                None => outcome_of(self@) is None,
                Some(Ok(_)) => outcome_of(self@) == Some(Ok::<(), Seq<char>>(())),
                Some(Err(e)) => outcome_of(self@) == Some(Err::<(), Seq<char>>(e@)),
            },
    {
        match self.failure {
            Some(e) => Some(Err(e)),
            None => if self.done >= self.total {
                Some(Ok(()))
            } else {
                None
            },
        }
    }
}

/// While a batch goes on after errors, its state after some results is plain:
/// it has processed as many files as results came in, and has not failed.
pub proof fn lemma_run_continuing(total: nat, results: Seq<Option<Seq<char>>>)
    requires
        results.len() <= total,
    ensures
        run_of(start_of(total, true), results) == (BatchView {
            done: results.len(),
            ..start_of(total, true)
        }),
        reports_of(start_of(total, true), results) == failures_of(results),
    decreases results.len(),
{
    if results.len() > 0 {
        lemma_run_continuing(total, results.drop_last());
    }
}

/// A batch that goes on after errors processes every file and ends well, whatever
/// the files give; and it reports the error of each file that failed, once and in
/// the order of the files.
pub proof fn continuing_batch_completes(total: nat, results: Seq<Option<Seq<char>>>)
    requires
        results.len() == total,
    ensures
        run_of(start_of(total, true), results).done == total,
        outcome_of(run_of(start_of(total, true), results)) == Some(Ok::<(), Seq<char>>(())),
        reports_of(start_of(total, true), results) == failures_of(results),
{
    lemma_run_continuing(total, results);
}

/// A single file is a batch of one. Where the batch goes on after errors, the
/// failure of the file is reported and the run ends well; where it does not, the
/// run ends with the error of the file and nothing is reported.
pub proof fn single_file_is_a_batch_of_one(
    path: Seq<char>,
    continue_on_error: bool,
    result: Option<Seq<char>>,
)
    ensures
        files_in(PlanView::Single(path), 0) == 1,
        run_of(start_of(1, continue_on_error), seq![result]).done == 1,
        continue_on_error ==> outcome_of(run_of(start_of(1, true), seq![result])) == Some(
            Ok::<(), Seq<char>>(()),
        ) && reports_of(start_of(1, true), seq![result]) == failures_of(seq![result]),
        !continue_on_error ==> outcome_of(run_of(start_of(1, false), seq![result])) == Some(
            match result {
                Some(text) => Err::<(), Seq<char>>(text),
                None => Ok::<(), Seq<char>>(()),
            },
        ) && reports_of(start_of(1, false), seq![result]) == Seq::<(nat, Seq<char>)>::empty(),
{
    let results = seq![result];
    let b = start_of(1, continue_on_error);
    assert(results.drop_last() =~= Seq::<Option<Seq<char>>>::empty());
    assert(results.last() == result);
    assert(run_of(b, results.drop_last()) == b);
    assert(reports_of(b, results.drop_last()) == Seq::<(nat, Seq<char>)>::empty());
    assert(run_of(b, results) == record_of(b, result));
    lemma_run_continuing(1, results);
}

/// While no file fails, a batch that stops at the first error has processed as
/// many files as results came in, and has reported nothing.
pub proof fn lemma_run_without_failure(total: nat, results: Seq<Option<Seq<char>>>)
    requires
        results.len() <= total,
        forall|j: int| 0 <= j < results.len() ==> results[j] is None,
    ensures
        run_of(start_of(total, false), results) == (BatchView {
            done: results.len(),
            ..start_of(total, false)
        }),
        reports_of(start_of(total, false), results) == Seq::<(nat, Seq<char>)>::empty(),
    decreases results.len(),
{
    if results.len() > 0 {
        lemma_run_without_failure(total, results.drop_last());
    }
}

/// Once a batch has come to an end, further results change nothing and nothing
/// is reported.
pub proof fn lemma_finished_stays(
    b: BatchView,
    results: Seq<Option<Seq<char>>>,
    k: int,
)
    requires
        0 <= k <= results.len(),
        is_finished(run_of(b, results.take(k))),
    ensures
        run_of(b, results) == run_of(b, results.take(k)),
        reports_of(b, results) == reports_of(b, results.take(k)),
    decreases results.len() - k,
{
    if k < results.len() {
        assert(results.drop_last().take(k) =~= results.take(k));
        lemma_finished_stays(b, results.drop_last(), k);
    } else {
        assert(results.take(k) =~= results);
    }
}

/// A batch that stops at the first error: where file `i` is the first that
/// fails, the files up to it are processed and none after it, the batch ends
/// with the error of file `i`, and nothing is reported on the way.
pub proof fn failing_batch_stops(total: nat, results: Seq<Option<Seq<char>>>, i: int)
    requires
        results.len() == total,
        0 <= i < total,
        results[i] is Some,
        forall|j: int| 0 <= j < i ==> results[j] is None,
    ensures
        run_of(start_of(total, false), results).done == i + 1,
        outcome_of(run_of(start_of(total, false), results)) == Some(
            Err::<(), Seq<char>>(results[i]->0),
        ),
        reports_of(start_of(total, false), results) == Seq::<(nat, Seq<char>)>::empty(),
{
    let b = start_of(total, false);
    let head = results.take(i + 1);
    assert(head.drop_last() =~= results.take(i));
    lemma_run_without_failure(total, results.take(i));
    assert(head.last() == results[i]);
    lemma_finished_stays(b, results, i + 1);
}

/// A batch in which no file fails processes every file and ends well, whether or
/// not it would go on after an error. A batch without files ends well at once.
pub proof fn clean_batch_completes(
    total: nat,
    continue_on_error: bool,
    results: Seq<Option<Seq<char>>>,
)
    requires
        results.len() == total,
        forall|j: int| 0 <= j < results.len() ==> results[j] is None,
    ensures
        run_of(start_of(total, continue_on_error), results).done == total,
        outcome_of(run_of(start_of(total, continue_on_error), results)) == Some(
            Ok::<(), Seq<char>>(()),
        ),
        total == 0 ==> outcome_of(start_of(total, continue_on_error)) == Some(
            Ok::<(), Seq<char>>(()),
        ),
{
    if continue_on_error {
        lemma_run_continuing(total, results);
    } else {
        lemma_run_without_failure(total, results);
    }
}

} // verus!
