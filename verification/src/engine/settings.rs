//! How the recognisers are set up.
//!
//! The caller looks for files and makes the recognisers; which files are
//! looked for, which of them are taken, and every setting is decided here.
//! Thresholds that are fractions are carried through unread.

use vstd::prelude::*;
use vstd::string::*;

use crate::config;
use crate::models::{DescView, ModelDesc, OfflineFamily, SherpaModelType, SlotKind};
use crate::models;
use crate::segments;
use crate::segments::SegConfig;
use crate::text;

verus! {

// ─── Files ─────────────────────────────────────────────────────────────

/// A file that was looked for.
pub struct FileProbe {
    pub path: String,
    pub exists: bool,
}

/// A file that was looked for, its path taken as a sequence.
#[verifier::ext_equal]
pub struct ProbeView {
    pub path: Seq<char>,
    pub exists: bool,
}

impl View for FileProbe {
    type V = ProbeView;

    open spec fn view(&self) -> ProbeView {
        ProbeView { path: self.path@, exists: self.exists }
    }
}

/// The files of a list.
pub open spec fn probe_views(list: Seq<FileProbe>) -> Seq<ProbeView> {
    list.map_values(|p: FileProbe| p@)
}

/// Why a recogniser cannot be set up.
#[derive(Debug)]
pub enum BuildError {
    /// The model is of the other kind.
    WrongKind { message: String },
    /// A file is missing.
    MissingFile { message: String },
}

/// Why a recogniser cannot be set up, the text taken as a sequence.
#[verifier::ext_equal]
pub enum BuildFault {
    WrongKind { message: Seq<char> },
    MissingFile { message: Seq<char> },
}

impl View for BuildError {
    type V = BuildFault;

    open spec fn view(&self) -> BuildFault {
        match self {
            BuildError::WrongKind { message } => BuildFault::WrongKind { message: message@ },
            BuildError::MissingFile { message } => BuildFault::MissingFile { message: message@ },
        }
    }
}

/// A part of a streaming model.
#[derive(Clone, Copy, Debug, PartialEq, Eq, Structural)]
pub enum ModelPart {
    Encoder,
    Decoder,
    Joiner,
    Tokens,
}

/// The file names to look for, the preferred one first.
pub open spec fn candidates(part: ModelPart, model_type: SherpaModelType) -> Seq<Seq<char>> {
    match part {
        ModelPart::Encoder => seq!["encoder.int8.onnx"@, "encoder.onnx"@],
        ModelPart::Decoder => match model_type {
            SherpaModelType::NemotronStreaming => seq!["decoder.int8.onnx"@, "decoder.onnx"@],
            SherpaModelType::Zipformer => seq!["decoder.onnx"@, "decoder.int8.onnx"@],
        },
        ModelPart::Joiner => seq!["joiner.int8.onnx"@, "joiner.onnx"@],
        ModelPart::Tokens => seq!["tokens.txt"@],
    }
}

/// The file names to look for, the preferred one first.
pub fn candidate_files(part: ModelPart, model_type: SherpaModelType) -> (r: Vec<String>)
    ensures
        text::texts(r@) == candidates(part, model_type),
{
    let mut out: Vec<String> = Vec::new();
    match part {
        ModelPart::Encoder => {
            out.push("encoder.int8.onnx".to_owned());
            out.push("encoder.onnx".to_owned());
        },
        ModelPart::Decoder => match model_type {
            SherpaModelType::NemotronStreaming => {
                out.push("decoder.int8.onnx".to_owned());
                out.push("decoder.onnx".to_owned());
            },
            SherpaModelType::Zipformer => {
                out.push("decoder.onnx".to_owned());
                out.push("decoder.int8.onnx".to_owned());
            },
        },
        ModelPart::Joiner => {
            out.push("joiner.int8.onnx".to_owned());
            out.push("joiner.onnx".to_owned());
        },
        ModelPart::Tokens => {
            out.push("tokens.txt".to_owned());
        },
    }
    proof {
        assert(text::texts(out@) =~= candidates(part, model_type));
    }
    out
}

/// The path of the first file that is there.
pub open spec fn first_existing(probes: Seq<ProbeView>) -> Option<Seq<char>>
    decreases probes.len(),
{
    if probes.len() == 0 {
        None
    } else if probes[0].exists {
        Some(probes[0].path)
    } else {
        first_existing(probes.drop_first())
    }
}

/// What is said if none of the files is there.
pub open spec fn none_exists(name: Seq<char>, names: Seq<Seq<char>>, dir: Seq<char>) -> Seq<char> {
    name + " 模型文件缺失: 需要 "@ + text::joined(names, " / "@) + " 之一，目录 "@ + dir
}

/// The path of the first file that is there, or what is said if none is.
pub open spec fn chosen_file(
    name: Seq<char>,
    dir: Seq<char>,
    names: Seq<Seq<char>>,
    probes: Seq<ProbeView>,
) -> Result<Seq<char>, BuildFault> {
    match first_existing(probes) {
        Some(path) => Ok(path),
        None => Err(BuildFault::MissingFile { message: none_exists(name, names, dir) }),
    }
}

/// Picks the first file that is there. `names` are the names that were looked
/// for in `dir`.
pub fn first_existing_model_file(
    name: &str,
    dir: &str,
    names: &[String],
    probes: &[FileProbe],
) -> (r: Result<String, BuildError>)
    ensures
        match r {
            Ok(path) => chosen_file(name@, dir@, text::texts(names@), probe_views(probes@)) == Ok::<
                Seq<char>,
                BuildFault,
            >(path@),
            Err(e) => chosen_file(name@, dir@, text::texts(names@), probe_views(probes@)) == Err::<
                Seq<char>,
                BuildFault,
            >(e@),
        },
{
    let ghost all = probe_views(probes@);
    let mut i: usize = 0;
    proof {
        assert(all.skip(0) =~= all);
    }
    while i < probes.len()
        invariant
            i <= probes@.len(),
            all == probe_views(probes@),
            first_existing(all) == first_existing(all.skip(i as int)),
        decreases probes@.len() - i,
    {
        proof {
            assert(all.skip(i as int)[0] == probes@[i as int]@);
            assert(all.skip(i as int).drop_first() =~= all.skip(i + 1));
        }
        if probes[i].exists {
            return Ok(probes[i].path.clone());
        }
        i = i + 1;
    }
    let mut message = name.to_owned();
    message.append(" 模型文件缺失: 需要 ");
    message.append(text::join_texts(names, " / ").as_str());
    message.append(" 之一，目录 ");
    message.append(dir);
    Err(BuildError::MissingFile { message })
}

/// The files of a streaming model that were looked for, by part.
pub struct OnlineProbes {
    pub encoder: Vec<FileProbe>,
    pub decoder: Vec<FileProbe>,
    pub joiner: Vec<FileProbe>,
    pub tokens: Vec<FileProbe>,
}

/// The files of a streaming model.
pub struct OnlineModelFiles {
    pub encoder: String,
    pub decoder: String,
    pub joiner: String,
    pub tokens: String,
}

/// The files of a streaming model, paths taken as sequences.
#[verifier::ext_equal]
pub struct FilesView {
    pub encoder: Seq<char>,
    pub decoder: Seq<char>,
    pub joiner: Seq<char>,
    pub tokens: Seq<char>,
}

impl View for OnlineModelFiles {
    type V = FilesView;

    open spec fn view(&self) -> FilesView {
        FilesView {
            encoder: self.encoder@,
            decoder: self.decoder@,
            joiner: self.joiner@,
            tokens: self.tokens@,
        }
    }
}

/// The files of a streaming model, or what is said of the first part that is
/// missing.
pub open spec fn chosen_files(
    name: Seq<char>,
    dir: Seq<char>,
    model_type: SherpaModelType,
    probes: OnlineProbes,
) -> Result<FilesView, BuildFault> {
    let encoder = chosen_file(
        name,
        dir,
        candidates(ModelPart::Encoder, model_type),
        probe_views(probes.encoder@),
    );
    let decoder = chosen_file(
        name,
        dir,
        candidates(ModelPart::Decoder, model_type),
        probe_views(probes.decoder@),
    );
    let joiner = chosen_file(
        name,
        dir,
        candidates(ModelPart::Joiner, model_type),
        probe_views(probes.joiner@),
    );
    let tokens = chosen_file(
        name,
        dir,
        candidates(ModelPart::Tokens, model_type),
        probe_views(probes.tokens@),
    );
    match (encoder, decoder, joiner, tokens) {
        (Err(e), _, _, _) => Err(e),
        (_, Err(e), _, _) => Err(e),
        (_, _, Err(e), _) => Err(e),
        (_, _, _, Err(e)) => Err(e),
        (Ok(encoder), Ok(decoder), Ok(joiner), Ok(tokens)) => Ok(
            FilesView { encoder, decoder, joiner, tokens },
        ),
    }
}

/// Picks the files of a streaming model.
pub fn online_model_files(
    name: &str,
    dir: &str,
    model_type: SherpaModelType,
    probes: &OnlineProbes,
) -> (r: Result<OnlineModelFiles, BuildError>)
    ensures
        match r {
            Ok(files) => chosen_files(name@, dir@, model_type, *probes) == Ok::<
                FilesView,
                BuildFault,
            >(files@),
            Err(e) => chosen_files(name@, dir@, model_type, *probes) == Err::<
                FilesView,
                BuildFault,
            >(e@),
        },
{
    let encoder = match first_existing_model_file(
        name,
        dir,
        candidate_files(ModelPart::Encoder, model_type).as_slice(),
        probes.encoder.as_slice(),
    ) {
        Ok(path) => path,
        Err(e) => return Err(e),
    };
    let decoder = match first_existing_model_file(
        name,
        dir,
        candidate_files(ModelPart::Decoder, model_type).as_slice(),
        probes.decoder.as_slice(),
    ) {
        Ok(path) => path,
        Err(e) => return Err(e),
    };
    let joiner = match first_existing_model_file(
        name,
        dir,
        candidate_files(ModelPart::Joiner, model_type).as_slice(),
        probes.joiner.as_slice(),
    ) {
        Ok(path) => path,
        Err(e) => return Err(e),
    };
    let tokens = match first_existing_model_file(
        name,
        dir,
        candidate_files(ModelPart::Tokens, model_type).as_slice(),
        probes.tokens.as_slice(),
    ) {
        Ok(path) => path,
        Err(e) => return Err(e),
    };
    Ok(OnlineModelFiles { encoder, decoder, joiner, tokens })
}

// ─── Streaming recognisers ─────────────────────────────────────────────

/// Bands of the spectrum that a streaming model takes.
pub open spec fn feature_dim_of(model_type: SherpaModelType) -> i32 {
    match model_type {
        SherpaModelType::NemotronStreaming => 128,
        SherpaModelType::Zipformer => 80,
    }
}

/// Bands of the spectrum that a streaming model takes.
pub fn online_feature_dim(model_type: SherpaModelType) -> (r: i32)
    ensures
        r == feature_dim_of(model_type),
{
    match model_type {
        SherpaModelType::NemotronStreaming => 128,
        SherpaModelType::Zipformer => 80,
    }
}

/// The settings of a streaming recogniser.
pub struct OnlineSettings<R> {
    pub feature_dim: i32,
    pub files: OnlineModelFiles,
    pub num_threads: i32,
    pub provider: &'static str,
    pub debug: bool,
    pub decoding_method: &'static str,
    pub max_active_paths: i32,
    /// The rules by which the recogniser ends sentences; none if it does not.
    pub endpoint_rules: Option<(R, R, R)>,
    /// The hot words, one a line; none if there are none.
    pub hotwords: Option<String>,
    /// How much hot words count, where there are any.
    pub hotwords_score: u32,
}

/// The voice activity model that listens for the end of speech.
#[derive(Clone, Copy, Debug, PartialEq, Eq, Structural)]
pub struct TailVad {
    pub threshold_permille: u64,
    pub min_silence_ms: u64,
    pub min_speech_ms: u64,
    pub max_speech_ms: u64,
    pub buffer_sec: u64,
}

/// The hot words that a model takes: none but for one type.
pub open spec fn hotwords_for(model_type: SherpaModelType, raw: Seq<char>) -> Seq<Seq<char>> {
    if model_type == SherpaModelType::Zipformer {
        config::trimmed_parts(text::pieces(raw, ',', '\n'))
    } else {
        Seq::empty()
    }
}

/// The settings of a streaming recogniser of a type.
pub open spec fn online_settings_ok<R>(
    s: OnlineSettings<R>,
    model_type: SherpaModelType,
    files: FilesView,
    custom: bool,
    raw_hotwords: Seq<char>,
    rules: (R, R, R),
) -> bool {
    let words = hotwords_for(model_type, raw_hotwords);
    &&& s.feature_dim == feature_dim_of(model_type)
    &&& s.files@ == files
    &&& s.num_threads == 1
    &&& s.provider@ == "cpu"@
    &&& !s.debug
    &&& s.decoding_method@ == (if words.len() > 0 {
        "modified_beam_search"@
    } else {
        "greedy_search"@
    })
    &&& s.max_active_paths == 4
    &&& s.endpoint_rules == (if custom {
        None
    } else {
        Some(rules)
    })
    &&& match s.hotwords {
        Some(h) => words.len() > 0 && h@ == text::joined(words, "\n"@),
        None => words.len() == 0,
    }
    &&& s.hotwords_score == 2
}

/// The voice activity model for a segmenter, if the model is there.
pub open spec fn tail_vad_of(seg_config: Option<SegConfig>, model_exists: bool) -> Option<TailVad> {
    match seg_config {
        Some(c) => if model_exists {
            Some(
                TailVad {
                    threshold_permille: c.vad_threshold_permille,
                    min_silence_ms: c.vad_min_silence_ms,
                    min_speech_ms: 0,
                    max_speech_ms: c.vad_max_speech_ms,
                    buffer_sec: 5,
                },
            )
        } else {
            None
        },
        None => None,
    }
}

/// The voice activity model for a segmenter, if the model is there.
pub fn tail_vad(seg_config: Option<SegConfig>, model_exists: bool) -> (r: Option<TailVad>)
    ensures
        r == tail_vad_of(seg_config, model_exists),
{
    match seg_config {
        Some(c) => if model_exists {
            Some(
                TailVad {
                    threshold_permille: c.vad_threshold_permille,
                    min_silence_ms: c.vad_min_silence_ms,
                    min_speech_ms: 0,
                    max_speech_ms: c.vad_max_speech_ms,
                    buffer_sec: 5,
                },
            )
        } else {
            None
        },
        None => None,
    }
}

/// Sets a streaming recogniser up. `dir` is where its files were looked for,
/// `raw_hotwords` lists hot words, and `custom` tells whether a segmenter ends
/// the sentences in place of `rules`.
pub fn online_settings<R>(
    desc: &ModelDesc,
    dir: &str,
    probes: &OnlineProbes,
    raw_hotwords: &str,
    rules: (R, R, R),
    custom: bool,
) -> (r: Result<OnlineSettings<R>, BuildError>)
    ensures
        match (desc.kind, r) {
            (SlotKind::Offline(_), Err(e)) => e@ == (BuildFault::WrongKind {
                message: "build_online_slot 收到离线模型"@,
            }),
            (SlotKind::Offline(_), Ok(_)) => false,
            (SlotKind::Online(t), Ok(s)) => match chosen_files(desc.name@, dir@, t, *probes) {
                Ok(files) => online_settings_ok(s, t, files, custom, raw_hotwords@, rules),
                Err(_) => false,
            },
            (SlotKind::Online(t), Err(e)) => chosen_files(desc.name@, dir@, t, *probes) == Err::<
                FilesView,
                BuildFault,
            >(e@),
        },
{
    let model_type = match desc.kind {
        SlotKind::Online(t) => t,
        SlotKind::Offline(_) => return Err(
            BuildError::WrongKind { message: "build_online_slot 收到离线模型".to_owned() },
        ),
    };
    let files = match online_model_files(desc.name, dir, model_type, probes) {
        Ok(files) => files,
        Err(e) => return Err(e),
    };
    let words: Vec<String> = match model_type {
        SherpaModelType::Zipformer => config::hotwords(raw_hotwords),
        SherpaModelType::NemotronStreaming => Vec::new(),
    };
    proof {
        assert(text::texts(words@) =~= hotwords_for(model_type, raw_hotwords@));
    }
    let some_words = words.len() > 0;
    Ok(
        OnlineSettings {
            feature_dim: online_feature_dim(model_type),
            files,
            num_threads: 1,
            provider: "cpu",
            debug: false,
            decoding_method: if some_words {
                "modified_beam_search"
            } else {
                "greedy_search"
            },
            max_active_paths: 4,
            endpoint_rules: if custom {
                None
            } else {
                Some(rules)
            },
            hotwords: if some_words {
                Some(text::join_texts(words.as_slice(), "\n"))
            } else {
                None
            },
            hotwords_score: 2,
        },
    )
}

/// `r` is what a model has of segmenter settings: the enhanced model always its
/// preset, other streaming models what was chosen, the rest none.
pub open spec fn is_slot_config(
    desc: DescView,
    chosen: Option<SegConfig>,
    r: Option<SegConfig>,
) -> bool {
    match (desc.kind, r) {
        (SlotKind::Offline(_), None) => true,
        (SlotKind::Offline(_), Some(_)) => false,
        (SlotKind::Online(_), Some(c)) => if text::occurs(desc.name, "加强版"@) {
            segments::is_enhanced_preset(c)
        } else {
            chosen == Some(c)
        },
        (SlotKind::Online(_), None) => !text::occurs(desc.name, "加强版"@) && chosen is None,
    }
}

/// The segmenter settings of a model: the enhanced model always has its
/// preset, other streaming models have what was chosen, the rest none.
pub fn slot_config(desc: &ModelDesc, chosen: Option<SegConfig>) -> (r: Option<SegConfig>)
    ensures
        is_slot_config(desc@, chosen, r),
{
    match desc.kind {
        SlotKind::Offline(_) => None,
        SlotKind::Online(_) => if desc.is_enhanced() {
            Some(segments::enhanced_zipformer_en())
        } else {
            chosen
        },
    }
}

// ─── Recognisers that do not stream ────────────────────────────────────

/// What a file of a model without a stream is called, and its name.
pub open spec fn offline_parts(family: OfflineFamily) -> Seq<(Seq<char>, Seq<char>)> {
    match family {
        OfflineFamily::Canary => seq![
            ("encoder"@, "encoder.int8.onnx"@),
            ("decoder"@, "decoder.int8.onnx"@),
            ("tokens"@, "tokens.txt"@),
        ],
        OfflineFamily::ParakeetNemoCtc => seq![
            ("model"@, "model.int8.onnx"@),
            ("tokens"@, "tokens.txt"@),
        ],
    }
}

/// What is said if a file of a model without a stream is missing.
pub open spec fn offline_missing(
    name: Seq<char>,
    label: Seq<char>,
    path: Seq<char>,
    family: OfflineFamily,
) -> Seq<char> {
    name + " 模型文件缺失: "@ + label + " ("@ + path + ")\n请先运行 "@ + models::family_script(family)
        + " 下载。"@
}

/// The path of a file, or what is said if it is missing.
pub open spec fn required_file(
    name: Seq<char>,
    family: OfflineFamily,
    label: Seq<char>,
    probe: ProbeView,
) -> Result<Seq<char>, BuildFault> {
    if probe.exists {
        Ok(probe.path)
    } else {
        Err(BuildFault::MissingFile { message: offline_missing(name, label, probe.path, family) })
    }
}

/// The path of a file that has to be there.
pub fn require_offline_file(
    desc: &ModelDesc,
    family: OfflineFamily,
    label: &str,
    probe: &FileProbe,
) -> (r: Result<String, BuildError>)
    ensures
        match r {
            Ok(path) => required_file(desc.name@, family, label@, probe@) == Ok::<
                Seq<char>,
                BuildFault,
            >(path@),
            Err(e) => required_file(desc.name@, family, label@, probe@) == Err::<
                Seq<char>,
                BuildFault,
            >(e@),
        },
{
    if probe.exists {
        return Ok(probe.path.clone());
    }
    let mut message = desc.name.to_owned();
    message.append(" 模型文件缺失: ");
    message.append(label);
    message.append(" (");
    message.append(probe.path.as_str());
    message.append(")\n请先运行 ");
    message.append(family.download_script());
    message.append(" 下载。");
    Err(BuildError::MissingFile { message })
}

/// The files of a recogniser without a stream, and what its family needs.
pub enum OfflineModel {
    /// It takes 128 bands, reads and writes English, and sets marks and capitals.
    Canary {
        feature_dim: i32,
        encoder: String,
        decoder: String,
        tokens: String,
        src_lang: &'static str,
        tgt_lang: &'static str,
        use_pnc: bool,
    },
    NemoCtc { model: String, tokens: String },
}

/// The settings of a recogniser without a stream.
pub struct OfflineSettings {
    pub family: OfflineFamily,
    pub model: OfflineModel,
    pub num_threads: i32,
    pub provider: &'static str,
    pub debug: bool,
}

/// The settings of a recogniser of a family with these files.
pub open spec fn offline_settings_ok(
    s: OfflineSettings,
    family: OfflineFamily,
    files: Seq<ProbeView>,
) -> bool {
    &&& s.family == family
    &&& s.num_threads == 1
    &&& s.provider@ == "cpu"@
    &&& !s.debug
    &&& match (family, s.model) {
        (
            OfflineFamily::Canary,
            OfflineModel::Canary {
                feature_dim,
                encoder,
                decoder,
                tokens,
                src_lang,
                tgt_lang,
                use_pnc,
            },
        ) => feature_dim == 128 && encoder@ == files[0].path && decoder@ == files[1].path && tokens@
            == files[2].path && src_lang@ == "en"@ && tgt_lang@ == "en"@ && use_pnc,
        (OfflineFamily::ParakeetNemoCtc, OfflineModel::NemoCtc { model, tokens }) => model@
            == files[0].path && tokens@ == files[1].path,
        _ => false,
    }
}

/// The first file that is missing.
pub open spec fn first_missing(files: Seq<ProbeView>, from: int) -> Option<int>
    decreases files.len() - from,
{
    if from >= files.len() {
        None
    } else if !files[from].exists {
        Some(from)
    } else {
        first_missing(files, from + 1)
    }
}

/// Sets a recogniser without a stream up; `files` are those of
/// `required_files`, in that order.
pub fn offline_settings(desc: &ModelDesc, files: &[FileProbe]) -> (r: Result<
    OfflineSettings,
    BuildError,
>)
    requires
        desc.kind matches SlotKind::Offline(family) ==> files@.len() == models::family_files(
            family,
        ).len(),
    ensures
        match (desc.kind, r) {
            (SlotKind::Online(_), Err(e)) => e@ == (BuildFault::WrongKind {
                message: "build_offline_slot 收到流式模型"@,
            }),
            (SlotKind::Online(_), Ok(_)) => false,
            (SlotKind::Offline(family), Ok(s)) => first_missing(probe_views(files@), 0) is None
                && offline_settings_ok(s, family, probe_views(files@)),
            (SlotKind::Offline(family), Err(e)) => match first_missing(probe_views(files@), 0) {
                Some(i) => e@ == (BuildFault::MissingFile {
                    message: offline_missing(
                        desc.name@,
                        offline_parts(family)[i].0,
                        files@[i].path@,
                        family,
                    ),
                }),
                None => false,
            },
        },
{
    let family = match desc.kind {
        SlotKind::Offline(family) => family,
        SlotKind::Online(_) => return Err(
            BuildError::WrongKind { message: "build_offline_slot 收到流式模型".to_owned() },
        ),
    };
    let ghost views = probe_views(files@);
    proof {
        assert(forall|i: int| 0 <= i < files@.len() ==> views[i] == files@[i]@);
        reveal_with_fuel(first_missing, 4);
    }
    let model = match family {
        OfflineFamily::Canary => {
            let encoder = match require_offline_file(desc, family, "encoder", &files[0]) {
                Ok(path) => path,
                Err(e) => return Err(e),
            };
            let decoder = match require_offline_file(desc, family, "decoder", &files[1]) {
                Ok(path) => path,
                Err(e) => return Err(e),
            };
            let tokens = match require_offline_file(desc, family, "tokens", &files[2]) {
                Ok(path) => path,
                Err(e) => return Err(e),
            };
            OfflineModel::Canary {
                feature_dim: 128,
                encoder,
                decoder,
                tokens,
                src_lang: "en",
                tgt_lang: "en",
                use_pnc: true,
            }
        },
        OfflineFamily::ParakeetNemoCtc => {
            let model = match require_offline_file(desc, family, "model", &files[0]) {
                Ok(path) => path,
                Err(e) => return Err(e),
            };
            let tokens = match require_offline_file(desc, family, "tokens", &files[1]) {
                Ok(path) => path,
                Err(e) => return Err(e),
            };
            OfflineModel::NemoCtc { model, tokens }
        },
    };
    Ok(OfflineSettings { family, model, num_threads: 1, provider: "cpu", debug: false })
}

// ─── The voice activity model ──────────────────────────────────────────

/// The voice activity model as it is set up; its measures are carried through.
pub struct SileroSettings<R> {
    pub model: String,
    pub threshold: R,
    pub min_silence_sec: R,
    pub min_speech_sec: R,
    pub max_speech_sec: R,
    pub window_size: i32,
    pub sample_rate: i32,
    pub num_threads: i32,
    pub provider: &'static str,
    pub debug: bool,
}

/// The model reads windows of 512 samples at 16 000 samples a second, on one
/// thread of the processor.
pub open spec fn listens_in_windows<R>(s: SileroSettings<R>) -> bool {
    &&& s.window_size == 512
    &&& s.sample_rate == 16_000
    &&& s.num_threads == 1
    &&& s.provider@ == "cpu"@
    &&& !s.debug
}

/// What is said if the voice activity model is missing.
pub open spec fn silero_missing(path: Seq<char>) -> Seq<char> {
    "Silero VAD 模型文件缺失: "@ + path
        + "\n请先运行 ./scripts/download-silero-vad.sh 下载，或用 SILERO_VAD_MODEL 指定路径。"@
}

/// Sets the voice activity model at `model` up.
pub fn silero_settings<R>(
    model: &FileProbe,
    threshold: R,
    min_silence_sec: R,
    min_speech_sec: R,
    max_speech_sec: R,
) -> (r: Result<SileroSettings<R>, BuildError>)
    ensures
        match r {
            Ok(s) => {
                &&& model.exists
                &&& s.model@ == model.path@
                &&& s.threshold == threshold
                &&& s.min_silence_sec == min_silence_sec
                &&& s.min_speech_sec == min_speech_sec
                &&& s.max_speech_sec == max_speech_sec
                &&& listens_in_windows(s)
            },
            Err(e) => !model.exists && e@ == (BuildFault::MissingFile {
                message: silero_missing(model.path@),
            }),
        },
{
    if !model.exists {
        let mut message = "Silero VAD 模型文件缺失: ".to_owned();
        message.append(model.path.as_str());
        message.append(
            "\n请先运行 ./scripts/download-silero-vad.sh 下载，或用 SILERO_VAD_MODEL 指定路径。",
        );
        return Err(BuildError::MissingFile { message });
    }
    Ok(
        SileroSettings {
            model: model.path.clone(),
            threshold,
            min_silence_sec,
            min_speech_sec,
            max_speech_sec,
            window_size: config::SILERO_VAD_WINDOW_SIZE,
            sample_rate: config::VAD_SAMPLE_RATE as i32,
            num_threads: 1,
            provider: "cpu",
            debug: false,
        },
    )
}

// ─── Laws ──────────────────────────────────────────────────────────────

/// The files that a recogniser without a stream is set up with are exactly
/// those that its model is checked for.
pub proof fn law_offline_parts_are_the_required_files(family: OfflineFamily)
    ensures
        offline_parts(family).len() == models::family_files(family).len(),
        forall|i: int|
            0 <= i < offline_parts(family).len() ==> (#[trigger] offline_parts(family)[i]).1
                == models::family_files(family)[i],
{
}

/// A preferred file wins over any other, and a model is refused only if none
/// of the files is there.
pub proof fn law_preferred_file_wins(probes: Seq<ProbeView>)
    ensures
        probes.len() > 0 && probes[0].exists ==> first_existing(probes) == Some(probes[0].path),
        first_existing(probes) is None <==> (forall|i: int|
            0 <= i < probes.len() ==> !(#[trigger] probes[i]).exists),
    decreases probes.len(),
{
    if probes.len() > 0 && !probes[0].exists {
        let rest = probes.drop_first();
        law_preferred_file_wins(rest);
        assert forall|i: int| 0 <= i < probes.len() && first_existing(rest) is None implies !(
        #[trigger] probes[i]).exists by {
            if i > 0 {
                assert(rest[i - 1] == probes[i]);
            }
        }
        assert(forall|i: int| 0 <= i < rest.len() ==> rest[i] == probes[i + 1]);
    }
}

/// The first file that is there is taken, whatever stands behind it.
pub proof fn law_first_file_there_is_taken(probes: Seq<ProbeView>, i: int)
    requires
        0 <= i < probes.len(),
        probes[i].exists,
        forall|j: int| 0 <= j < i ==> !(#[trigger] probes[j]).exists,
    ensures
        first_existing(probes) == Some(probes[i].path),
    decreases i,
{
    if i > 0 {
        let rest = probes.drop_first();
        assert(forall|j: int| 0 <= j < rest.len() ==> rest[j] == probes[j + 1]);
        law_first_file_there_is_taken(rest, i - 1);
    }
}

/// Small files are preferred, but for the decoder of a Zipformer, of which the
/// full one is.
pub proof fn law_preferred_files()
    ensures
        forall|t: SherpaModelType|
            #![trigger candidates(ModelPart::Encoder, t)]
            candidates(ModelPart::Encoder, t) == seq!["encoder.int8.onnx"@, "encoder.onnx"@]
                && candidates(ModelPart::Joiner, t) == seq!["joiner.int8.onnx"@, "joiner.onnx"@]
                && candidates(ModelPart::Tokens, t) == seq!["tokens.txt"@],
        candidates(ModelPart::Decoder, SherpaModelType::Zipformer) == seq![
            "decoder.onnx"@,
            "decoder.int8.onnx"@,
        ],
        candidates(ModelPart::Decoder, SherpaModelType::NemotronStreaming) == seq![
            "decoder.int8.onnx"@,
            "decoder.onnx"@,
        ],
        feature_dim_of(SherpaModelType::Zipformer) == 80,
        feature_dim_of(SherpaModelType::NemotronStreaming) == 128,
{
}

/// A streaming model has all its files, each for its own part, or what is told is
/// the first part of encoder, decoder, joiner and tokens that is missing.
pub proof fn law_every_part_has_its_file(
    name: Seq<char>,
    dir: Seq<char>,
    t: SherpaModelType,
    probes: OnlineProbes,
)
    ensures
        ({
            let encoder = first_existing(probe_views(probes.encoder@));
            let decoder = first_existing(probe_views(probes.decoder@));
            let joiner = first_existing(probe_views(probes.joiner@));
            let tokens = first_existing(probe_views(probes.tokens@));
            let missing = |part: ModelPart|
                Err::<FilesView, BuildFault>(
                    BuildFault::MissingFile {
                        message: name + " 模型文件缺失: 需要 "@ + text::joined(
                            candidates(part, t),
                            " / "@,
                        ) + " 之一，目录 "@ + dir,
                    },
                );
            let got = chosen_files(name, dir, t, probes);
            &&& encoder is None ==> got == missing(ModelPart::Encoder)
            &&& encoder is Some && decoder is None ==> got == missing(ModelPart::Decoder)
            &&& encoder is Some && decoder is Some && joiner is None ==> got == missing(
                ModelPart::Joiner,
            )
            &&& encoder is Some && decoder is Some && joiner is Some && tokens is None ==> got
                == missing(ModelPart::Tokens)
            &&& encoder is Some && decoder is Some && joiner is Some && tokens is Some ==> got == Ok::<
                FilesView,
                BuildFault,
            >(
                FilesView {
                    encoder: encoder->0,
                    decoder: decoder->0,
                    joiner: joiner->0,
                    tokens: tokens->0,
                },
            )
        }),
{
}

/// A streaming recogniser is set up with its files on one thread; hot words, which
/// only a Zipformer takes, make it search more widely; and it ends sentences by its
/// rules exactly if no segmenter does.
pub proof fn law_streaming_recogniser_is_set_up<R>(
    s: OnlineSettings<R>,
    t: SherpaModelType,
    files: FilesView,
    custom: bool,
    raw: Seq<char>,
    rules: (R, R, R),
)
    requires
        online_settings_ok(s, t, files, custom, raw, rules),
    ensures
        s.files@ == files,
        s.num_threads == 1 && s.provider@ == "cpu"@ && !s.debug,
        s.max_active_paths == 4 && s.hotwords_score == 2,
        t == SherpaModelType::Zipformer ==> s.feature_dim == 80,
        t == SherpaModelType::NemotronStreaming ==> s.feature_dim == 128,
        custom ==> s.endpoint_rules is None,
        !custom ==> s.endpoint_rules == Some(rules),
        t == SherpaModelType::NemotronStreaming ==> s.hotwords is None && s.decoding_method@
            == "greedy_search"@,
        t == SherpaModelType::Zipformer ==> {
            let words = config::trimmed_parts(text::pieces(raw, ',', '\n'));
            &&& words.len() > 0 ==> s.decoding_method@ == "modified_beam_search"@
            &&& words.len() > 0 ==> (s.hotwords matches Some(h) && h@ == text::joined(words, "\n"@))
            &&& words.len() == 0 ==> s.decoding_method@ == "greedy_search"@ && s.hotwords is None
        },
{
}

/// A segmenter listens for the end of speech with its own settings if the voice
/// activity model is there.
pub proof fn law_segmenter_listens_for_the_end_of_speech(c: SegConfig)
    ensures
        tail_vad_of(Some(c), true) matches Some(v) && v.threshold_permille
            == c.vad_threshold_permille && v.min_silence_ms == c.vad_min_silence_ms
            && v.max_speech_ms == c.vad_max_speech_ms && v.min_speech_ms == 0 && v.buffer_sec == 5,
        tail_vad_of(Some(c), false) is None,
        tail_vad_of(None, true) is None && tail_vad_of(None, false) is None,
{
}

proof fn lemma_first_missing(files: Seq<ProbeView>, from: int, i: int)
    requires
        0 <= from <= i < files.len(),
        !files[i].exists,
        forall|j: int| from <= j < i ==> (#[trigger] files[j]).exists,
    ensures
        first_missing(files, from) == Some(i),
    decreases i - from,
{
    if from < i {
        lemma_first_missing(files, from + 1, i);
    }
}

/// The first missing file is told with its name, its path and the script that
/// fetches it; nothing is told if all are there.
pub proof fn law_first_missing_file_is_told(
    files: Seq<ProbeView>,
    i: int,
    name: Seq<char>,
    label: Seq<char>,
    path: Seq<char>,
)
    ensures
        0 <= i < files.len() && !files[i].exists && (forall|j: int|
            0 <= j < i ==> (#[trigger] files[j]).exists) ==> first_missing(files, 0) == Some(i),
        offline_missing(name, label, path, OfflineFamily::Canary) == name + " 模型文件缺失: "@
            + label + " ("@ + path + ")\n请先运行 "@ + "./scripts/download-canary.sh"@ + " 下载。"@,
        offline_missing(name, label, path, OfflineFamily::ParakeetNemoCtc) == name
            + " 模型文件缺失: "@ + label + " ("@ + path + ")\n请先运行 "@
            + "./scripts/download-parakeet-tdt-ctc-110m.sh"@ + " 下载。"@,
        silero_missing(path) == "Silero VAD 模型文件缺失: "@ + path
            + "\n请先运行 ./scripts/download-silero-vad.sh 下载，或用 SILERO_VAD_MODEL 指定路径。"@,
{
    if 0 <= i < files.len() && !files[i].exists && (forall|j: int|
        0 <= j < i ==> (#[trigger] files[j]).exists) {
        lemma_first_missing(files, 0, i);
    }
}

/// A recogniser without a stream is set up with the file of each part in its place,
/// and a Canary writes English with marks and capitals.
pub proof fn law_offline_recogniser_is_set_up(
    s: OfflineSettings,
    family: OfflineFamily,
    files: Seq<ProbeView>,
)
    requires
        offline_settings_ok(s, family, files),
    ensures
        s.family == family && s.num_threads == 1 && s.provider@ == "cpu"@ && !s.debug,
        family == OfflineFamily::ParakeetNemoCtc ==> (s.model matches OfflineModel::NemoCtc {
            model,
            tokens,
        } && model@ == files[0].path && tokens@ == files[1].path),
        family == OfflineFamily::Canary ==> (s.model matches OfflineModel::Canary {
            feature_dim,
            encoder,
            decoder,
            tokens,
            src_lang,
            tgt_lang,
            use_pnc,
        } && encoder@ == files[0].path && decoder@ == files[1].path && tokens@ == files[2].path
            && feature_dim == 128 && src_lang@ == "en"@ && tgt_lang@ == "en"@ && use_pnc),
        offline_parts(OfflineFamily::Canary)[0].0 == "encoder"@ && offline_parts(
            OfflineFamily::Canary,
        )[1].0 == "decoder"@ && offline_parts(OfflineFamily::Canary)[2].0 == "tokens"@,
        offline_parts(OfflineFamily::ParakeetNemoCtc)[0].0 == "model"@ && offline_parts(
            OfflineFamily::ParakeetNemoCtc,
        )[1].0 == "tokens"@,
{
}

/// A model that does not stream has no segmenter; the enhanced one always has that
/// of its preset, and any other that streams has what was chosen, also if that is
/// none.
pub proof fn law_enhanced_model_keeps_its_preset(
    desc: DescView,
    chosen: Option<SegConfig>,
    r: Option<SegConfig>,
)
    requires
        is_slot_config(desc, chosen, r),
    ensures
        desc.kind is Offline ==> r is None,
        desc.kind is Online && text::occurs(desc.name, "加强版"@) ==> r is Some
            && r->0.punct_stability == 700_000_000 && r->0.extreme_timeout == 25_000_000_000,
        desc.kind is Online && !text::occurs(desc.name, "加强版"@) ==> r == chosen,
{
}

/// The voice activity model reads 32 milliseconds at once, at the rate at which
/// speech is gathered, on one thread and without a log.
pub proof fn law_voice_model_reads_32_milliseconds<R>(s: SileroSettings<R>)
    requires
        listens_in_windows(s),
    ensures
        s.window_size * 1_000 == 32 * s.sample_rate,
        s.sample_rate == config::VAD_SAMPLE_RATE,
        s.window_size == config::SILERO_VAD_WINDOW_SIZE,
        s.num_threads == 1 && !s.debug && s.provider@ == "cpu"@,
{
}

/// A missing voice activity model is told with its path, then how to get it.
pub proof fn law_missing_voice_model_is_told(path: Seq<char>)
    ensures
        silero_missing(path) == "Silero VAD 模型文件缺失: "@ + path
            + "\n请先运行 ./scripts/download-silero-vad.sh 下载，或用 SILERO_VAD_MODEL 指定路径。"@,
{
}

} // verus!
