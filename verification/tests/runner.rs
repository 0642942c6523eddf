use caesium::error::CaesiumError;
use caesium::parameters::{CSParameters, ChromaSubsampling as Sampling, TiffCompression as Packing, TiffDeflateLevel as Level};
use caesium::SupportedFileTypes;
use imgtool::codec::{encoder_failure, probe, webp_marked, MAX_SIDE, SAME_FORMAT, WEBP_MAX_SIDE};
use imgtool::error::ImageProcessError;
use imgtool::options::{
    ChromaSubsampling, CliOptions, GifParams, JpegParams, OutputFormatTypes, PngParams,
    ResizeRule, TiffCompression, TiffDeflateLevel, TiffParams, WebPParams,
};
use imgtool::resize::{NaturalSize, ResizeArgs};
use imgtool::runner::{
    input_files, Batch, Call, Encoding, PathKind, Plan, Request, RunConfiguration, Runner, Step,
    Task,
};
use imgtool::single::Single;

const PNG_4_BY_3: [u8; 99] = [
    137, 80, 78, 71, 13, 10, 26, 10, 0, 0, 0, 13, 73, 72, 68, 82, 0, 0, 0, 4, 0, 0, 0, 3, 8, 6, 0,
    0, 0, 180, 244, 174, 198, 0, 0, 0, 42, 73, 68, 65, 84, 120, 218, 21, 200, 49, 1, 0, 32, 16, 196,
    176, 10, 67, 196, 203, 185, 17, 41, 136, 56, 127, 80, 134, 44, 1, 246, 93, 138, 42, 24, 67, 81,
    231, 199, 49, 20, 85, 15, 80, 9, 25, 237, 39, 239, 57, 25, 0, 0, 0, 0, 73, 69, 78, 68, 174, 66,
    96, 130,
];

fn options() -> CliOptions {
    CliOptions {
        input: "in".to_string(),
        output: "out".to_string(),
        prefix: None,
        suffix: None,
        dry_run: false,
        continue_on_error: false,
        skip_if_bigger: false,
        target_format: None,
        delete_origin: false,
        keep_metadata: false,
        lossless: false,
        resize_args: ResizeArgs::new(),
        jpeg_params: None,
        png_params: None,
        gif_params: None,
        webp_params: None,
        tiff_params: None,
    }
}

fn runner(options: CliOptions) -> Runner {
    Runner::from(RunConfiguration::from(options))
}

fn failure(text: &str) -> Result<(), ImageProcessError> {
    Err(ImageProcessError::new(text.to_string()))
}

fn encode(data: &[u8], request: &Request) -> Result<Vec<u8>, CaesiumError> {
    match request.call {
        Call::Compress => caesium::compress_in_memory(data.to_vec(), &request.parameters),
        Call::Convert(format) => caesium::convert_in_memory(data.to_vec(), &request.parameters, format),
    }
}

/// The encoding of `data`, with the calls that are handed out made as well.
fn carried(c: &RunConfiguration, data: &Vec<u8>) -> Result<Vec<u8>, ImageProcessError> {
    let mut encoding = Runner::run_process(data, c);
    loop {
        match encoding {
            Encoding::Done(bytes) => return Ok(bytes),
            Encoding::Failed(e) => return Err(e),
            Encoding::Next(request) => {
                assert!(!Runner::makes(&request, data));
                encoding = match Runner::after_call(&request, encode(data, &request)) {
                    Encoding::Next(next) => Runner::take(next, data),
                    other => other,
                };
            }
        }
    }
}

/// The result for a file, with every step but the writing taken as the program takes it.
fn written(r: &Runner, data: Vec<u8>) -> Result<Vec<u8>, String> {
    let mut step = r.process(Ok(data));
    loop {
        match step {
            Step::Fail(e) => return Err(e.to_string()),
            Step::Write(bytes) => return Ok(bytes),
            Step::Delete(bytes) => step = Runner::after_delete(Ok(()), bytes),
            Step::Encode(task) => {
                let result = encode(&task.data, &task.request);
                step = r.after_encode(task, result);
            }
        }
    }
}

fn done(encoding: Encoding) -> Vec<u8> {
    match encoding {
        Encoding::Done(bytes) => bytes,
        Encoding::Failed(e) => panic!("bytes were expected, not {}", e.to_string()),
        Encoding::Next(_) => panic!("bytes were expected, not a call"),
    }
}

fn failed(encoding: Encoding) -> String {
    match encoding {
        Encoding::Failed(e) => e.to_string(),
        _ => panic!("a failure was expected"),
    }
}

#[test]
fn parameters_without_options() {
    let p = options().parameters();
    assert_eq!(p.jpeg.quality, 80);
    assert!(p.jpeg.chroma_subsampling == Sampling::Auto);
    assert!(p.jpeg.progressive);
    assert_eq!((p.png.quality, p.png.force_zopfli, p.png.optimization_level), (80, false, 3));
    assert_eq!(p.gif.quality, 80);
    assert_eq!(p.webp.quality, 80);
    assert!(p.tiff.algorithm == Packing::Deflate);
    assert!(p.tiff.deflate_level == Level::Balanced);
    assert_eq!((p.keep_metadata, p.optimize, p.width, p.height), (false, false, 0, 0));
}

#[test]
fn parameters_with_options() {
    let mut o = options();
    o.jpeg_params = Some(JpegParams { quality: 60, chroma_subsampling: ChromaSubsampling::CS422, progressive: false });
    o.png_params = Some(PngParams { quality: 50, force_zopfli: true, optimization_level: 6 });
    o.gif_params = Some(GifParams { quality: 40 });
    o.webp_params = Some(WebPParams { quality: 30 });
    o.tiff_params = Some(TiffParams { algorithm: TiffCompression::Packbits, deflate_level: TiffDeflateLevel::Best });
    o.keep_metadata = true;
    o.lossless = true;
    let p = o.parameters();
    assert_eq!((p.jpeg.quality, p.jpeg.progressive), (60, false));
    assert!(p.jpeg.chroma_subsampling == Sampling::CS422);
    assert_eq!((p.png.quality, p.png.force_zopfli, p.png.optimization_level), (50, true, 6));
    assert_eq!(p.gif.quality, 40);
    assert_eq!(p.webp.quality, 30);
    assert!(p.tiff.algorithm == Packing::Packbits);
    assert!(p.tiff.deflate_level == Level::Best);
    assert_eq!((p.keep_metadata, p.optimize, p.width, p.height), (true, true, 0, 0));
}

#[test]
fn words_of_the_encoders() {
    assert!(OutputFormatTypes::Jpeg.file_type() == SupportedFileTypes::Jpeg);
    assert!(OutputFormatTypes::Png.file_type() == SupportedFileTypes::Png);
    assert!(OutputFormatTypes::Gif.file_type() == SupportedFileTypes::Gif);
    assert!(OutputFormatTypes::WebP.file_type() == SupportedFileTypes::WebP);
    assert!(OutputFormatTypes::Tiff.file_type() == SupportedFileTypes::Tiff);
    assert!(ChromaSubsampling::CS444.sampling() == Sampling::CS444);
    assert!(ChromaSubsampling::CS420.sampling() == Sampling::CS420);
    assert!(ChromaSubsampling::CS411.sampling() == Sampling::CS411);
    assert!(TiffCompression::Uncompressed.packing() == Packing::Uncompressed);
    assert!(TiffCompression::Lzw.packing() == Packing::Lzw);
    assert!(TiffDeflateLevel::Fast.effort() == Level::Fast);
}

#[test]
fn run_configuration_of_options() {
    let mut o = options();
    o.target_format = Some(OutputFormatTypes::WebP);
    o.gif_params = Some(GifParams { quality: 12 });
    let c = RunConfiguration::from(o);
    assert!(c.target_format == Some(SupportedFileTypes::WebP));
    assert_eq!(c.caesium_parameters.gif.quality, 12);
    assert_eq!(c.options.input, "in");
    let c = RunConfiguration::from(options());
    assert!(c.target_format.is_none());
}

#[test]
fn encoder_error_is_shown_with_its_code() {
    let err = CaesiumError { message: "Cannot convert to the same format".to_string(), code: 10407 };
    assert_eq!(encoder_failure(&err).to_string(), format!("IOError: {}", err));
    assert_eq!(encoder_failure(&err).to_string(), "IOError: Cannot convert to the same format [10407]");
    let err = CaesiumError { message: "".to_string(), code: 0 };
    assert_eq!(encoder_failure(&err).to_string(), "IOError:  [0]");
    let err = CaesiumError { message: "x".to_string(), code: u32::MAX };
    assert_eq!(encoder_failure(&err).to_string(), "IOError: x [4294967295]");
}

#[test]
fn probe_reads_the_size() {
    assert_eq!(probe(&PNG_4_BY_3.to_vec()).unwrap(), NaturalSize { width: 4, height: 3 });
    let head = vec![
        0x89, 0x50, 0x4E, 0x47, 0x0D, 0x0A, 0x1A, 0x0A, 0x00, 0x00, 0x00, 0x0D, 0x49, 0x48, 0x44,
        0x52, 0x00, 0x00, 0x00, 0x7B, 0x00, 0x00, 0x01, 0x41, 0x08, 0x06, 0x00, 0x00, 0x00, 0x9A,
        0x38, 0xC4,
    ];
    assert_eq!(probe(&head).unwrap(), NaturalSize { width: 123, height: 321 });
}

#[test]
fn probe_fails_as_the_crate_does() {
    let junk = vec![7u8; 64];
    let expected = imagesize::blob_size(&junk).unwrap_err().to_string();
    assert_eq!(probe(&junk).unwrap_err().to_string(), format!("IOError: {}", expected));
    let short = vec![1u8, 2, 3];
    let expected = imagesize::blob_size(&short).unwrap_err().to_string();
    assert_eq!(probe(&short).unwrap_err().to_string(), format!("IOError: {}", expected));
}

#[test]
fn set_scaled_size_sets_both_sides() {
    let mut p = CSParameters::new();
    p.gif.quality = 5;
    let mut a = ResizeArgs::new();
    a.rule = ResizeRule::Scale;
    a.ratio = Single::from_bits(0.5f32.to_bits());
    Runner::set_scaled_size(&mut p, &a, &PNG_4_BY_3.to_vec()).unwrap();
    assert_eq!((p.width, p.height), (2, 1));
    assert_eq!(p.gif.quality, 5);
    a.rule = ResizeRule::Width;
    a.width = Single::from_bits(10.0f32.to_bits());
    Runner::set_scaled_size(&mut p, &a, &PNG_4_BY_3.to_vec()).unwrap();
    assert_eq!((p.width, p.height), (10, 0));
    a.keep_aspect_ratio = false;
    Runner::set_scaled_size(&mut p, &a, &PNG_4_BY_3.to_vec()).unwrap();
    assert_eq!((p.width, p.height), (10, 3));
}

#[test]
fn set_scaled_size_leaves_the_settings_where_the_probe_fails() {
    let mut p = CSParameters::new();
    p.width = 11;
    p.height = 12;
    let mut a = ResizeArgs::new();
    a.rule = ResizeRule::ShortEdge;
    a.edge_size = 100;
    let r = Runner::set_scaled_size(&mut p, &a, &vec![0u8; 40]);
    assert!(r.is_err());
    assert_eq!((p.width, p.height), (11, 12));
}

#[test]
fn prepare_sets_the_size_only_with_a_rule() {
    let c = RunConfiguration::from(options());
    let p = Runner::prepare(&c, &vec![0u8; 40]).unwrap();
    assert_eq!((p.width, p.height), (0, 0));
    let mut o = options();
    o.resize_args.rule = ResizeRule::LongEdge;
    o.resize_args.edge_size = 8;
    let c = RunConfiguration::from(o);
    let p = Runner::prepare(&c, &PNG_4_BY_3.to_vec()).unwrap();
    assert_eq!((p.width, p.height), (8, 6));
    assert!(Runner::prepare(&c, &vec![0u8; 40]).is_err());
}

#[test]
fn same_format_asks_for_compression() {
    assert_eq!(SAME_FORMAT, 10407);
    let mut parameters = CSParameters::new();
    parameters.width = 31;
    parameters.png.quality = 12;
    let conversion = Request { call: Call::Convert(SupportedFileTypes::Png), parameters };
    let err = CaesiumError { message: "Cannot convert to the same format".to_string(), code: 10407 };
    match Runner::after_call(&conversion, Err(err)) {
        Encoding::Next(next) => {
            assert!(matches!(next.call, Call::Compress));
            assert_eq!((next.parameters.width, next.parameters.png.quality), (31, 12));
        }
        _ => panic!("a call was expected"),
    }
    let err = CaesiumError { message: "broken".to_string(), code: 10403 };
    assert_eq!(failed(Runner::after_call(&conversion, Err(err))), "IOError: broken [10403]");
    assert_eq!(done(Runner::after_call(&conversion, Ok(vec![1, 2, 3]))), vec![1, 2, 3]);
}

#[test]
fn compression_keeps_bytes_and_shows_every_error() {
    let compression = Request { call: Call::Compress, parameters: CSParameters::new() };
    assert_eq!(done(Runner::after_call(&compression, Ok(vec![9, 8]))), vec![9, 8]);
    let err = CaesiumError { message: "Format not supported for compression in memory".to_string(), code: 10200 };
    assert_eq!(
        failed(Runner::after_call(&compression, Err(err))),
        "IOError: Format not supported for compression in memory [10200]"
    );
    // after a compression nothing follows, whatever the code
    let err = CaesiumError { message: "odd".to_string(), code: 10407 };
    assert_eq!(failed(Runner::after_call(&compression, Err(err))), "IOError: odd [10407]");
}

#[test]
fn first_call_is_a_conversion_where_a_format_is_asked() {
    let data = PNG_4_BY_3.to_vec();
    let first = Runner::first_call(&RunConfiguration::from(options()), &data).ok().unwrap();
    assert!(matches!(first.call, Call::Compress));
    assert_eq!((first.parameters.width, first.parameters.height), (0, 0));
    let mut o = options();
    o.target_format = Some(OutputFormatTypes::Tiff);
    o.resize_args.rule = ResizeRule::Width;
    o.resize_args.width = Single::from_bits(8.0f32.to_bits());
    let c = RunConfiguration::from(o);
    let first = Runner::first_call(&c, &data).ok().unwrap();
    assert!(matches!(first.call, Call::Convert(SupportedFileTypes::Tiff)));
    assert_eq!((first.parameters.width, first.parameters.height), (8, 0));
    let junk = vec![7u8; 64];
    let expected = imagesize::blob_size(&junk).unwrap_err().to_string();
    assert_eq!(Runner::first_call(&c, &junk).err().map(|e| e.to_string()), Some(format!("IOError: {}", expected)));
}

#[test]
fn conversion_to_the_same_format_falls_back_to_compression() {
    let mut o = options();
    o.target_format = Some(OutputFormatTypes::Png);
    let c = RunConfiguration::from(o);
    let direct = caesium::convert_in_memory(PNG_4_BY_3.to_vec(), &c.caesium_parameters, SupportedFileTypes::Png);
    assert_eq!(direct.unwrap_err().code, 10407);
    let bytes = done(Runner::run_process(&PNG_4_BY_3.to_vec(), &c));
    assert_eq!(probe(&bytes).unwrap(), NaturalSize { width: 4, height: 3 });
    assert_eq!(&bytes[0..8], &PNG_4_BY_3[0..8]);
}

#[test]
fn compression_without_target_format() {
    let c = RunConfiguration::from(options());
    let bytes = done(Runner::run_process(&PNG_4_BY_3.to_vec(), &c));
    assert_eq!(probe(&bytes).unwrap(), NaturalSize { width: 4, height: 3 });
}

#[test]
fn compression_with_resize() {
    let mut o = options();
    o.resize_args.rule = ResizeRule::Scale;
    o.resize_args.ratio = Single::from_bits(0.5f32.to_bits());
    let c = RunConfiguration::from(o);
    let bytes = done(Runner::run_process(&PNG_4_BY_3.to_vec(), &c));
    assert_eq!(probe(&bytes).unwrap(), NaturalSize { width: 2, height: 1 });
}

#[test]
fn conversion_to_another_format() {
    let mut o = options();
    o.target_format = Some(OutputFormatTypes::Jpeg);
    let c = RunConfiguration::from(o);
    let bytes = done(Runner::run_process(&PNG_4_BY_3.to_vec(), &c));
    assert_eq!(&bytes[0..2], &[0xff, 0xd8]);
    assert_eq!(probe(&bytes).unwrap(), NaturalSize { width: 4, height: 3 });
}

#[test]
fn unknown_data_fails_with_the_error_of_the_encoder() {
    let c = RunConfiguration::from(options());
    assert_eq!(
        failed(Runner::run_process(&vec![7u8; 64], &c)),
        "IOError: Format not supported for compression in memory [10200]"
    );
}

#[test]
fn unknown_data_with_resize_fails_with_the_error_of_the_probe() {
    let mut o = options();
    o.resize_args.rule = ResizeRule::ShortEdge;
    o.resize_args.edge_size = 2;
    let c = RunConfiguration::from(o);
    let junk = vec![7u8; 64];
    let expected = imagesize::blob_size(&junk).unwrap_err().to_string();
    assert_eq!(failed(Runner::run_process(&junk, &c)), format!("IOError: {}", expected));
}

#[test]
fn step_writes_or_deletes_first() {
    assert!(matches!(Runner::step_of(Encoding::Done(vec![1]), vec![5], false), Step::Write(b) if b == vec![1]));
    assert!(matches!(Runner::step_of(Encoding::Done(vec![1]), vec![5], true), Step::Delete(b) if b == vec![1]));
    match Runner::step_of(Encoding::Failed(ImageProcessError::new("bad".to_string())), vec![5], true) {
        Step::Fail(e) => assert_eq!(e.to_string(), "IOError: bad"),
        _ => panic!("a failure was expected"),
    }
    let mut parameters = CSParameters::new();
    parameters.height = 77;
    let request = Request { call: Call::Convert(SupportedFileTypes::WebP), parameters };
    match Runner::step_of(Encoding::Next(request), vec![5, 6], true) {
        Step::Encode(Task { data, request }) => {
            assert_eq!(data, vec![5, 6]);
            assert!(matches!(request.call, Call::Convert(SupportedFileTypes::WebP)));
            assert_eq!(request.parameters.height, 77);
        }
        _ => panic!("a call was expected"),
    }
}

#[test]
fn failed_deletion_prevents_the_output() {
    match Runner::after_delete(failure("denied"), vec![1, 2]) {
        Step::Fail(e) => assert_eq!(e.to_string(), "IOError: denied"),
        _ => panic!("a failure was expected"),
    }
    assert!(matches!(Runner::after_delete(Ok(()), vec![1, 2]), Step::Write(b) if b == vec![1, 2]));
}

#[test]
fn process_of_one_file() {
    let r = runner(options());
    match r.process(Err(ImageProcessError::new("gone".to_string()))) {
        Step::Fail(e) => assert_eq!(e.to_string(), "IOError: gone"),
        _ => panic!("a failure was expected"),
    }
    match r.process(Ok(PNG_4_BY_3.to_vec())) {
        Step::Write(bytes) => assert_eq!(probe(&bytes).unwrap(), NaturalSize { width: 4, height: 3 }),
        _ => panic!("bytes to write were expected"),
    }
    let mut o = options();
    o.delete_origin = true;
    let r = runner(o);
    assert!(matches!(r.process(Ok(PNG_4_BY_3.to_vec())), Step::Delete(_)));
    assert!(matches!(r.process(Ok(vec![7u8; 64])), Step::Fail(_)));
}

#[test]
fn plan_of_a_missing_input() {
    let r = runner(options());
    match r.plan(PathKind::Missing, PathKind::Directory) {
        Plan::Fail(e) => assert_eq!(e.to_string(), "IOError: File or dir not exists: in"),
        _ => panic!("a failure was expected"),
    }
}

#[test]
fn plan_of_a_single_file() {
    let mut o = options();
    o.input = "pics/photo.JPG".to_string();
    o.output = "/out".to_string();
    o.prefix = Some("sm_".to_string());
    o.suffix = Some("_v2".to_string());
    let r = runner(o);
    assert!(matches!(r.plan(PathKind::File, PathKind::Directory), Plan::Single(p) if p == "/out/sm_photo_v2.JPG"));
    // an output that is no directory is the output file itself
    assert!(matches!(r.plan(PathKind::File, PathKind::File), Plan::Single(p) if p == "/out"));
    assert!(matches!(r.plan(PathKind::File, PathKind::Missing), Plan::Single(p) if p == "/out"));
    assert!(matches!(r.plan(PathKind::File, PathKind::Other), Plan::Single(p) if p == "/out"));
    assert_eq!(r.output_file("b.png"), "/out/sm_b_v2.png");
    assert_eq!(r.output_file("pics/more/b.png"), "/out/sm_b_v2.png");
}

#[test]
fn plan_of_a_directory() {
    let r = runner(options());
    assert!(matches!(r.plan(PathKind::Directory, PathKind::Missing), Plan::Batch(true)));
    assert!(matches!(r.plan(PathKind::Directory, PathKind::Directory), Plan::Batch(false)));
    assert!(matches!(r.plan(PathKind::Directory, PathKind::Other), Plan::Batch(false)));
    assert!(matches!(r.plan(PathKind::Other, PathKind::Directory), Plan::Batch(false)));
    match r.plan(PathKind::Directory, PathKind::File) {
        Plan::Fail(e) => assert_eq!(
            e.to_string(),
            "IOError: When input is a dir, output should also be a dir, but given a file: out"
        ),
        _ => panic!("a failure was expected"),
    }
}

#[test]
fn input_files_are_the_regular_files() {
    let listing = vec![
        PathKind::File,
        PathKind::Directory,
        PathKind::File,
        PathKind::Other,
        PathKind::Missing,
        PathKind::File,
    ];
    assert_eq!(input_files(&listing), vec![0, 2, 5]);
    assert_eq!(input_files(&Vec::new()), Vec::<usize>::new());
    assert_eq!(input_files(&vec![PathKind::Directory]), Vec::<usize>::new());
}

#[test]
fn batch_goes_on_after_an_error() {
    let mut o = options();
    o.continue_on_error = true;
    let mut batch = runner(o).batch(3);
    let mut processed = Vec::new();
    let mut reported = Vec::new();
    while let Some(i) = batch.next() {
        processed.push(i);
        let result = if i == 1 { failure("file 2 is broken") } else { Ok(()) };
        if let Some(e) = batch.record(result) {
            reported.push((i, e.to_string()));
        }
    }
    assert_eq!(processed, vec![0, 1, 2]);
    assert_eq!(reported, vec![(1, "IOError: file 2 is broken".to_string())]);
    assert!(matches!(batch.finish(), Some(Ok(()))));
}

#[test]
fn batch_stops_at_the_first_error() {
    let mut batch = runner(options()).batch(3);
    let mut processed = Vec::new();
    while let Some(i) = batch.next() {
        processed.push(i);
        let result = if i == 0 { failure("file 1 is broken") } else { Ok(()) };
        assert!(batch.record(result).is_none());
    }
    assert_eq!(processed, vec![0]);
    match batch.finish() {
        Some(Err(e)) => assert_eq!(e.to_string(), "IOError: file 1 is broken"),
        _ => panic!("a failure was expected"),
    }
}

#[test]
fn batch_stops_in_the_middle() {
    let mut batch = Batch::new(4, false);
    assert_eq!(batch.next(), Some(0));
    assert!(batch.record(Ok(())).is_none());
    assert_eq!(batch.next(), Some(1));
    assert!(batch.record(Ok(())).is_none());
    assert_eq!(batch.next(), Some(2));
    assert!(batch.record(failure("third")).is_none());
    assert_eq!(batch.next(), None);
    // what comes in after the end is not looked at
    assert!(batch.record(failure("late")).is_none());
    assert_eq!(batch.next(), None);
    match batch.finish() {
        Some(Err(e)) => assert_eq!(e.to_string(), "IOError: third"),
        _ => panic!("a failure was expected"),
    }
}

#[test]
fn batch_without_files_ends_well() {
    let batch = Batch::new(0, false);
    assert_eq!(batch.next(), None);
    assert!(matches!(batch.finish(), Some(Ok(()))));
    let batch = Batch::new(0, true);
    assert!(matches!(batch.finish(), Some(Ok(()))));
}

#[test]
fn batch_is_not_finished_while_files_are_left() {
    let mut batch = Batch::new(2, true);
    assert!(batch.record(failure("first")).is_some());
    assert_eq!(batch.next(), Some(1));
    assert!(batch.finish().is_none());
}

const PNG_16_BY_1: [u8; 108] = [
    137, 80, 78, 71, 13, 10, 26, 10, 0, 0, 0, 13, 73, 72, 68, 82, 0, 0, 0, 16, 0, 0, 0, 1, 8, 6, 0,
    0, 0, 215, 121, 46, 95, 0, 0, 0, 51, 73, 68, 65, 84, 120, 218, 99, 96, 72, 105, 248, 207, 15,
    196, 114, 64, 172, 11, 196, 54, 64, 236, 13, 196, 81, 64, 156, 9, 196, 21, 64, 220, 14, 196,
    211, 128, 120, 41, 16, 111, 1, 226, 195, 64, 124, 9, 136, 31, 2, 49, 0, 92, 45, 37, 57, 87,
    192, 20, 119, 0, 0, 0, 0, 73, 69, 78, 68, 174, 66, 96, 130,
];

fn webp_of(png: &[u8]) -> Vec<u8> {
    let mut o = options();
    o.target_format = Some(OutputFormatTypes::WebP);
    carried(&RunConfiguration::from(o), &png.to_vec()).ok().unwrap()
}

#[test]
fn single_file_is_planned_with_the_name_of_its_file() {
    let mut o = options();
    o.input = "/in/sub/a.png".to_string();
    o.output = "/out".to_string();
    let r = runner(o);
    assert!(matches!(r.plan(PathKind::File, PathKind::Directory), Plan::Single(p) if p == "/out/a.png"));
}

#[test]
fn single_file_is_a_batch_of_one() {
    let mut o = options();
    o.continue_on_error = true;
    let r = runner(o);
    let plan = r.plan(PathKind::File, PathKind::File);
    let mut batch = r.batch_of(&plan, 7);
    assert_eq!(batch.next(), Some(0));
    let report = batch.record(failure("broken"));
    assert_eq!(report.map(|e| e.to_string()), Some("IOError: broken".to_string()));
    assert_eq!(batch.next(), None);
    assert!(matches!(batch.finish(), Some(Ok(()))));

    let r = runner(options());
    let plan = r.plan(PathKind::File, PathKind::File);
    let mut batch = r.batch_of(&plan, 7);
    assert_eq!(batch.next(), Some(0));
    assert!(batch.record(failure("broken")).is_none());
    assert_eq!(batch.next(), None);
    match batch.finish() {
        Some(Err(e)) => assert_eq!(e.to_string(), "IOError: broken"),
        _ => panic!("a failure was expected"),
    }
}

#[test]
fn batch_of_a_plan() {
    let r = runner(options());
    let plan = r.plan(PathKind::Directory, PathKind::Directory);
    let mut batch = r.batch_of(&plan, 2);
    assert_eq!(batch.next(), Some(0));
    assert!(batch.record(Ok(())).is_none());
    assert_eq!(batch.next(), Some(1));
    let plan = r.plan(PathKind::Missing, PathKind::Directory);
    let batch = r.batch_of(&plan, 2);
    assert_eq!(batch.next(), None);
}

#[test]
fn webp_mark() {
    assert!(webp_marked(&b"RIFF\x10\x00\x00\x00WEBPVP8 ".to_vec()));
    assert!(webp_marked(&b"12345678WEBP".to_vec()));
    assert!(!webp_marked(&b"12345678WEB".to_vec()));
    assert!(!webp_marked(&b"RIFF\x10\x00\x00\x00WAVEfmt ".to_vec()));
    assert!(!webp_marked(&PNG_4_BY_3.to_vec()));
    assert!(webp_marked(&webp_of(&PNG_4_BY_3)));
    assert_eq!(WEBP_MAX_SIDE, 16383);
}

#[test]
fn calls_that_the_library_makes() {
    let png = PNG_4_BY_3.to_vec();
    let webp = webp_of(&PNG_4_BY_3);
    let request = |call: Call, width: u32, height: u32, quality: u32| {
        let mut parameters = CSParameters::new();
        parameters.width = width;
        parameters.height = height;
        parameters.webp.quality = quality;
        Request { call, parameters }
    };
    let to_webp = Call::Convert(SupportedFileTypes::WebP);
    let to_jpeg = Call::Convert(SupportedFileTypes::Jpeg);
    assert_eq!(MAX_SIDE, 134_217_727);
    // compression: all data without the mark of WebP
    assert!(Runner::makes(&request(Call::Compress, 0, 0, 80), &png));
    assert!(Runner::makes(&request(Call::Compress, 0, 9, 4000), &png));
    assert!(Runner::makes(&request(Call::Compress, MAX_SIDE, MAX_SIDE, 80), &png));
    assert!(!Runner::makes(&request(Call::Compress, MAX_SIDE + 1, 0, 80), &png));
    assert!(!Runner::makes(&request(Call::Compress, 0, MAX_SIDE + 1, 80), &png));
    assert!(!Runner::makes(&request(Call::Compress, 0, 0, 80), &webp));
    assert!(!Runner::makes(&request(Call::Compress, 8, 6, 80), &webp));
    // conversion to another format than WebP
    assert!(Runner::makes(&request(to_jpeg, 0, 0, 80), &png));
    assert!(Runner::makes(&request(to_jpeg, 0, 0, 101), &webp));
    assert!(!Runner::makes(&request(to_jpeg, MAX_SIDE + 1, 1, 80), &png));
    // conversion to WebP: both sides given, and a quality that the encoder takes
    assert!(Runner::makes(&request(to_webp, 8, 6, 80), &png));
    assert!(Runner::makes(&request(to_webp, 16383, 1, 100), &png));
    assert!(Runner::makes(&request(to_webp, 1, 16383, 0), &webp));
    assert!(!Runner::makes(&request(to_webp, 0, 0, 80), &png));
    assert!(!Runner::makes(&request(to_webp, 8, 0, 80), &png));
    assert!(!Runner::makes(&request(to_webp, 0, 6, 80), &png));
    assert!(!Runner::makes(&request(to_webp, 16384, 1, 80), &png));
    assert!(!Runner::makes(&request(to_webp, 1, 16384, 80), &png));
    assert!(!Runner::makes(&request(to_webp, 8, 6, 101), &png));
}

#[test]
fn take_hands_back_the_call_that_the_library_does_not_make() {
    let mut parameters = CSParameters::new();
    parameters.webp.quality = 101;
    parameters.jpeg.quality = 33;
    let request = Request { call: Call::Convert(SupportedFileTypes::WebP), parameters };
    match Runner::take(request, &PNG_4_BY_3.to_vec()) {
        Encoding::Next(next) => {
            assert!(matches!(next.call, Call::Convert(SupportedFileTypes::WebP)));
            assert_eq!((next.parameters.webp.quality, next.parameters.jpeg.quality), (101, 33));
        }
        _ => panic!("a call was expected"),
    }
    let mut c = RunConfiguration::from(options());
    c.caesium_parameters.height = MAX_SIDE + 1;
    match Runner::run_process(&PNG_4_BY_3.to_vec(), &c) {
        Encoding::Next(next) => {
            assert!(matches!(next.call, Call::Compress));
            assert_eq!(next.parameters.height, MAX_SIDE + 1);
        }
        _ => panic!("a call was expected"),
    }
}

#[test]
fn conversion_to_webp_is_handed_out() {
    let mut o = options();
    o.target_format = Some(OutputFormatTypes::WebP);
    let r = runner(o);
    let task = match r.process(Ok(PNG_4_BY_3.to_vec())) {
        Step::Encode(task) => task,
        _ => panic!("a call was expected"),
    };
    assert_eq!(task.data, PNG_4_BY_3.to_vec());
    assert!(matches!(task.request.call, Call::Convert(SupportedFileTypes::WebP)));
    assert_eq!((task.request.parameters.width, task.request.parameters.height), (0, 0));
    let result = encode(&task.data, &task.request);
    match r.after_encode(task, result) {
        Step::Write(bytes) => {
            assert!(webp_marked(&bytes));
            assert_eq!(probe(&bytes).unwrap(), NaturalSize { width: 4, height: 3 });
        }
        _ => panic!("bytes to write were expected"),
    }
}

#[test]
fn conversion_to_webp_with_both_sides_given_is_made_by_the_library() {
    let mut o = options();
    o.target_format = Some(OutputFormatTypes::WebP);
    o.resize_args.rule = ResizeRule::Size;
    o.resize_args.width = Single::from_bits(8.0f32.to_bits());
    o.resize_args.height = Single::from_bits(6.0f32.to_bits());
    let c = RunConfiguration::from(o);
    let bytes = done(Runner::run_process(&PNG_4_BY_3.to_vec(), &c));
    assert!(webp_marked(&bytes));
    assert_eq!(probe(&bytes).unwrap(), NaturalSize { width: 8, height: 6 });
}

#[test]
fn compression_of_webp_is_handed_out() {
    let webp = webp_of(&PNG_16_BY_1);
    assert_eq!(probe(&webp).unwrap(), NaturalSize { width: 16, height: 1 });
    let mut o = options();
    o.resize_args.rule = ResizeRule::Width;
    o.resize_args.width = Single::from_bits(8.0f32.to_bits());
    o.delete_origin = true;
    let r = runner(o);
    let task = match r.process(Ok(webp.clone())) {
        Step::Encode(task) => task,
        _ => panic!("a call was expected"),
    };
    assert_eq!(task.data, webp);
    assert!(matches!(task.request.call, Call::Compress));
    assert_eq!((task.request.parameters.width, task.request.parameters.height), (8, 0));
    let result = encode(&task.data, &task.request);
    match r.after_encode(task, result) {
        Step::Delete(bytes) => assert_eq!(probe(&bytes).unwrap(), NaturalSize { width: 8, height: 1 }),
        _ => panic!("a deletion was expected"),
    }
}

#[test]
fn failure_of_a_call_that_was_handed_out_ends_the_file() {
    let r = runner(options());
    let request = Request { call: Call::Compress, parameters: CSParameters::new() };
    let task = Task { data: webp_of(&PNG_4_BY_3), request };
    let err = CaesiumError { message: "no frames".to_string(), code: 20304 };
    match r.after_encode(task, Err(err)) {
        Step::Fail(e) => assert_eq!(e.to_string(), "IOError: no frames [20304]"),
        _ => panic!("a failure was expected"),
    }
}

#[test]
fn webp_to_webp_falls_back_to_a_compression_that_is_handed_out() {
    let webp = webp_of(&PNG_4_BY_3);
    // with both sides given the library makes the conversion, which finds the format
    let mut o = options();
    o.target_format = Some(OutputFormatTypes::WebP);
    o.resize_args.rule = ResizeRule::Size;
    o.resize_args.width = Single::from_bits(2.0f32.to_bits());
    o.resize_args.height = Single::from_bits(5.0f32.to_bits());
    let r = runner(o);
    let task = match r.process(Ok(webp.clone())) {
        Step::Encode(task) => task,
        _ => panic!("a call was expected"),
    };
    assert!(matches!(task.request.call, Call::Compress));
    assert_eq!((task.request.parameters.width, task.request.parameters.height), (2, 5));
    assert_eq!(task.data, webp);
    let result = encode(&task.data, &task.request);
    match r.after_encode(task, result) {
        Step::Write(bytes) => assert_eq!(probe(&bytes).unwrap(), NaturalSize { width: 2, height: 5 }),
        _ => panic!("bytes to write were expected"),
    }
    // with a side left open the conversion is handed out, and the compression after it
    let mut o = options();
    o.target_format = Some(OutputFormatTypes::WebP);
    let r = runner(o);
    let task = match r.process(Ok(webp.clone())) {
        Step::Encode(task) => task,
        _ => panic!("a call was expected"),
    };
    assert!(matches!(task.request.call, Call::Convert(SupportedFileTypes::WebP)));
    let result = encode(&task.data, &task.request);
    assert_eq!(result.as_ref().err().map(|e| e.code), Some(10407));
    let task = match r.after_encode(task, result) {
        Step::Encode(task) => task,
        _ => panic!("a call was expected"),
    };
    assert!(matches!(task.request.call, Call::Compress));
    assert_eq!(task.data, webp);
    let result = encode(&task.data, &task.request);
    match r.after_encode(task, result) {
        Step::Write(bytes) => assert_eq!(probe(&bytes).unwrap(), NaturalSize { width: 4, height: 3 }),
        _ => panic!("bytes to write were expected"),
    }
}

#[test]
fn handed_out_conversion_goes_on_inside() {
    // a conversion that is handed out and finds the format is followed by a compression
    // that the library makes
    let mut parameters = CSParameters::new();
    parameters.height = MAX_SIDE + 1;
    let r = runner(options());
    let request = Request { call: Call::Convert(SupportedFileTypes::Png), parameters };
    let task = Task { data: PNG_4_BY_3.to_vec(), request };
    let err = CaesiumError { message: "Cannot convert to the same format".to_string(), code: 10407 };
    assert!(matches!(r.after_encode(task, Err(err)), Step::Encode(_)));
    let request = Request { call: Call::Convert(SupportedFileTypes::WebP), parameters: CSParameters::new() };
    let task = Task { data: PNG_4_BY_3.to_vec(), request };
    let err = CaesiumError { message: "Cannot convert to the same format".to_string(), code: 10407 };
    match r.after_encode(task, Err(err)) {
        Step::Write(bytes) => assert_eq!(probe(&bytes).unwrap(), NaturalSize { width: 4, height: 3 }),
        _ => panic!("bytes to write were expected"),
    }
}

#[test]
fn webp_with_an_open_side_is_resized() {
    let mut o = options();
    o.resize_args.rule = ResizeRule::Width;
    o.resize_args.width = Single::from_bits(8.0f32.to_bits());
    let bytes = written(&runner(o), webp_of(&PNG_16_BY_1)).unwrap();
    assert_eq!(probe(&bytes).unwrap(), NaturalSize { width: 8, height: 1 });
    let mut o = options();
    o.resize_args.rule = ResizeRule::Height;
    o.resize_args.height = Single::from_bits(6.0f32.to_bits());
    o.target_format = Some(OutputFormatTypes::WebP);
    let bytes = written(&runner(o), PNG_4_BY_3.to_vec()).unwrap();
    assert_eq!(probe(&bytes).unwrap(), NaturalSize { width: 8, height: 6 });
}

#[test]
fn jpeg_is_converted_to_webp_with_metadata_and_an_open_side() {
    let mut o = options();
    o.target_format = Some(OutputFormatTypes::Jpeg);
    let jpeg = written(&runner(o), PNG_4_BY_3.to_vec()).unwrap();
    assert_eq!(&jpeg[0..3], &[0xff, 0xd8, 0xff]);
    let mut o = options();
    o.target_format = Some(OutputFormatTypes::WebP);
    o.keep_metadata = true;
    o.resize_args.rule = ResizeRule::Width;
    o.resize_args.width = Single::from_bits(8.0f32.to_bits());
    let bytes = written(&runner(o), jpeg).unwrap();
    assert!(webp_marked(&bytes));
    assert_eq!(probe(&bytes).unwrap(), NaturalSize { width: 8, height: 6 });
}

#[test]
fn written_fails_as_the_file_does() {
    assert_eq!(
        written(&runner(options()), vec![7u8; 64]),
        Err("IOError: Format not supported for compression in memory [10200]".to_string())
    );
}
