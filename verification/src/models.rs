//! The recognisers to choose from, and the files that each needs.

use vstd::prelude::*;
use vstd::string::*;

use crate::text;

verus! {

/// How a streaming model is built.
#[derive(Clone, Copy, Debug, PartialEq, Eq, Structural)]
pub enum SherpaModelType {
    Zipformer,
    NemotronStreaming,
}

/// What a model listens for.
#[derive(Clone, Copy, Debug, PartialEq, Eq, Structural)]
pub enum Language {
    Chinese,
    English,
}

/// How a model without a stream is built.
#[derive(Clone, Copy, Debug, PartialEq, Eq, Structural)]
pub enum OfflineFamily {
    Canary,
    ParakeetNemoCtc,
}

/// Whether a model streams.
#[derive(Clone, Copy, Debug, PartialEq, Eq, Structural)]
pub enum SlotKind {
    /// It takes audio as it comes and delivers a growing text.
    Online(SherpaModelType),
    /// It takes stretches of speech and delivers their text.
    Offline(OfflineFamily),
}

/// The name of a family.
pub open spec fn family_name(f: OfflineFamily) -> Seq<char> {
    match f {
        OfflineFamily::Canary => "canary"@,
        OfflineFamily::ParakeetNemoCtc => "parakeet_nemo_ctc"@,
    }
}

/// The files that a model of a family needs.
pub open spec fn family_files(f: OfflineFamily) -> Seq<Seq<char>> {
    match f {
        OfflineFamily::Canary => seq!["encoder.int8.onnx"@, "decoder.int8.onnx"@, "tokens.txt"@],
        OfflineFamily::ParakeetNemoCtc => seq!["model.int8.onnx"@, "tokens.txt"@],
    }
}

/// The script that fetches a model of a family.
pub open spec fn family_script(f: OfflineFamily) -> Seq<char> {
    match f {
        OfflineFamily::Canary => "./scripts/download-canary.sh"@,
        OfflineFamily::ParakeetNemoCtc => "./scripts/download-parakeet-tdt-ctc-110m.sh"@,
    }
}

/// The names of a list.
pub open spec fn name_views(list: Seq<&'static str>) -> Seq<Seq<char>> {
    list.map_values(|s: &'static str| s@)
}

impl OfflineFamily {
    /// The name of the family.
    pub fn as_str(self) -> (r: &'static str)
        ensures
            r@ == family_name(self),
    {
        match self {
            OfflineFamily::Canary => "canary",
            OfflineFamily::ParakeetNemoCtc => "parakeet_nemo_ctc",
        }
    }

    /// The files that a model of the family needs.
    pub fn required_files(self) -> (r: Vec<&'static str>)
        ensures
            name_views(r@) == family_files(self),
    {
        let out: Vec<&'static str> = match self {
            OfflineFamily::Canary => vec!["encoder.int8.onnx", "decoder.int8.onnx", "tokens.txt"],
            OfflineFamily::ParakeetNemoCtc => vec!["model.int8.onnx", "tokens.txt"],
        };
        proof {
            assert(name_views(out@) =~= family_files(self));
        }
        out
    }

    /// The script that fetches a model of the family.
    pub fn download_script(self) -> (r: &'static str)
        ensures
            r@ == family_script(self),
    {
        match self {
            OfflineFamily::Canary => "./scripts/download-canary.sh",
            OfflineFamily::ParakeetNemoCtc => "./scripts/download-parakeet-tdt-ctc-110m.sh",
        }
    }
}

/// A model to choose.
#[derive(Clone, Copy, Debug)]
pub struct ModelDesc {
    pub name: &'static str,
    /// Its directory below that of all models.
    pub subdir: &'static str,
    pub kind: SlotKind,
    pub language: Language,
}

/// A model to choose, its texts taken as sequences.
#[verifier::ext_equal]
pub struct DescView {
    pub name: Seq<char>,
    pub subdir: Seq<char>,
    pub kind: SlotKind,
    pub language: Language,
}

impl View for ModelDesc {
    type V = DescView;

    open spec fn view(&self) -> DescView {
        DescView {
            name: self.name@,
            subdir: self.subdir@,
            kind: self.kind,
            language: self.language,
        }
    }
}

/// The models of a list.
pub open spec fn desc_views(list: Seq<ModelDesc>) -> Seq<DescView> {
    list.map_values(|d: ModelDesc| d@)
}

/// Every required file is there.
pub open spec fn all_true(present: Seq<bool>) -> bool {
    forall|i: int| 0 <= i < present.len() ==> #[trigger] present[i]
}

/// The name tells of the enhanced model.
pub open spec fn named_enhanced(name: Seq<char>) -> bool {
    text::occurs(name, "加强版"@)
}

/// A model can be chosen if it streams, or if none of its files is missing.
pub open spec fn can_be_chosen(kind: SlotKind, present: Seq<bool>) -> bool {
    kind is Online || all_true(present)
}

impl ModelDesc {
    /// Whether the model is the enhanced one, which its name tells.
    pub fn is_enhanced(&self) -> (r: bool)
        ensures
            r == named_enhanced(self.name@),
    {
        let name = text::chars_of(self.name);
        let mark = text::chars_of("加强版");
        text::contains_text(name.as_slice(), mark.as_slice())
    }

    /// Whether the model can be chosen. `present` tells of each required file
    /// whether it is there; a model that streams can always be chosen.
    pub fn files_present(&self, present: &[bool]) -> (r: bool)
        ensures
            r == can_be_chosen(self.kind, present@),
    {
        match self.kind {
            SlotKind::Online(_) => true,
            SlotKind::Offline(_) => {
                let mut i: usize = 0;
                while i < present.len()
                    invariant
                        i <= present@.len(),
                        self.kind is Offline,
                        forall|j: int| 0 <= j < i ==> #[trigger] present@[j],
                    decreases present@.len() - i,
                {
                    if !present[i] {
                        return false;
                    }
                    i = i + 1;
                }
                true
            },
        }
    }

    /// The script that fetches the model, for those that may be missing.
    pub fn missing_files_hint(&self) -> (r: Option<&'static str>)
        ensures
            match (self.kind, r) {
                (SlotKind::Online(_), None) => true,
                (SlotKind::Offline(family), Some(script)) => script@ == family_script(family),
                _ => false,
            },
    {
        match self.kind {
            SlotKind::Online(_) => None,
            SlotKind::Offline(family) => Some(family.download_script()),
        }
    }
}

/// The models to choose from, in order.
pub open spec fn all_models() -> Seq<DescView> {
    seq![
        DescView {
            name: "Zipformer-zh"@,
            subdir: "zipformer-zh"@,
            kind: SlotKind::Online(SherpaModelType::Zipformer),
            language: Language::Chinese,
        },
        DescView {
            name: "Zipformer-en"@,
            subdir: "zipformer-en"@,
            kind: SlotKind::Online(SherpaModelType::Zipformer),
            language: Language::English,
        },
        DescView {
            name: "Zipformer-en (加强版)"@,
            subdir: "zipformer-en-enhanced"@,
            kind: SlotKind::Online(SherpaModelType::Zipformer),
            language: Language::English,
        },
        DescView {
            name: "Nemotron-en"@,
            subdir: "nemotron-en"@,
            kind: SlotKind::Online(SherpaModelType::NemotronStreaming),
            language: Language::English,
        },
        DescView {
            name: "Canary-180m-flash"@,
            subdir: "canary-180m-flash"@,
            kind: SlotKind::Offline(OfflineFamily::Canary),
            language: Language::English,
        },
        DescView {
            name: "Parakeet-TDT-CTC-110M"@,
            subdir: "parakeet-tdt-ctc-110m"@,
            kind: SlotKind::Offline(OfflineFamily::ParakeetNemoCtc),
            language: Language::English,
        },
    ]
}

/// The models to choose from, in order.
pub fn model_descs() -> (r: Vec<ModelDesc>)
    ensures
        desc_views(r@) == all_models(),
{
    let out: Vec<ModelDesc> = vec![
        ModelDesc {
            name: "Zipformer-zh",
            subdir: "zipformer-zh",
            kind: SlotKind::Online(SherpaModelType::Zipformer),
            language: Language::Chinese,
        },
        ModelDesc {
            name: "Zipformer-en",
            subdir: "zipformer-en",
            kind: SlotKind::Online(SherpaModelType::Zipformer),
            language: Language::English,
        },
        ModelDesc {
            name: "Zipformer-en (加强版)",
            subdir: "zipformer-en-enhanced",
            kind: SlotKind::Online(SherpaModelType::Zipformer),
            language: Language::English,
        },
        ModelDesc {
            name: "Nemotron-en",
            subdir: "nemotron-en",
            kind: SlotKind::Online(SherpaModelType::NemotronStreaming),
            language: Language::English,
        },
        ModelDesc {
            name: "Canary-180m-flash",
            subdir: "canary-180m-flash",
            kind: SlotKind::Offline(OfflineFamily::Canary),
            language: Language::English,
        },
        ModelDesc {
            name: "Parakeet-TDT-CTC-110M",
            subdir: "parakeet-tdt-ctc-110m",
            kind: SlotKind::Offline(OfflineFamily::ParakeetNemoCtc),
            language: Language::English,
        },
    ];
    proof {
        assert(desc_views(out@) =~= all_models());
    }
    out
}

// ─── Laws ──────────────────────────────────────────────────────────────

/// Among the models exactly one is the enhanced one, and it streams.
pub proof fn law_one_model_is_enhanced(i: int)
    requires
        0 <= i < all_models().len(),
    ensures
        text::occurs(all_models()[i].name, "加强版"@) <==> i == 2,
        all_models()[2].kind is Online,
{
    reveal_strlit("加强版");
    reveal_strlit("Zipformer-zh");
    reveal_strlit("Zipformer-en");
    reveal_strlit("Zipformer-en (加强版)");
    reveal_strlit("Nemotron-en");
    reveal_strlit("Canary-180m-flash");
    reveal_strlit("Parakeet-TDT-CTC-110M");
    let name = all_models()[i].name;
    let mark = "加强版"@;
    if i == 2 {
        assert(name.subrange(14, 17) =~= mark);
        assert(text::stands_at(name, mark, 14));
    } else {
        assert forall|j: int| !text::stands_at(name, mark, j) by {
            if text::stands_at(name, mark, j) {
                assert(name.subrange(j, j + 3)[0] == name[j]);
                assert(mark[0] == '加');
            }
        }
    }
}

/// Four models stream and two do not, one listens for Chinese and the others for
/// English, and each has a directory of its own.
pub proof fn law_six_models_to_choose_from(i: int)
    requires
        0 <= i < 6,
    ensures
        all_models().len() == 6,
        all_models()[i].kind is Online <==> i < 4,
        all_models()[i].language == Language::Chinese <==> i == 0,
        all_models()[i].kind == SlotKind::Online(SherpaModelType::NemotronStreaming) <==> i == 3,
        all_models()[4].kind == SlotKind::Offline(OfflineFamily::Canary),
        all_models()[5].kind == SlotKind::Offline(OfflineFamily::ParakeetNemoCtc),
        all_models()[0].name == "Zipformer-zh"@ && all_models()[0].subdir == "zipformer-zh"@,
        all_models()[1].name == "Zipformer-en"@ && all_models()[1].subdir == "zipformer-en"@,
        all_models()[2].name == "Zipformer-en (加强版)"@ && all_models()[2].subdir
            == "zipformer-en-enhanced"@,
        all_models()[3].name == "Nemotron-en"@ && all_models()[3].subdir == "nemotron-en"@,
        all_models()[4].name == "Canary-180m-flash"@ && all_models()[4].subdir
            == "canary-180m-flash"@,
        all_models()[5].name == "Parakeet-TDT-CTC-110M"@ && all_models()[5].subdir
            == "parakeet-tdt-ctc-110m"@,
{
}

/// Each family has its name, its files and the script that fetches them.
pub proof fn law_families_have_files_and_scripts()
    ensures
        family_name(OfflineFamily::Canary) == "canary"@,
        family_name(OfflineFamily::ParakeetNemoCtc) == "parakeet_nemo_ctc"@,
        family_files(OfflineFamily::Canary) == seq![
            "encoder.int8.onnx"@,
            "decoder.int8.onnx"@,
            "tokens.txt"@,
        ],
        family_files(OfflineFamily::ParakeetNemoCtc) == seq!["model.int8.onnx"@, "tokens.txt"@],
        family_script(OfflineFamily::Canary) == "./scripts/download-canary.sh"@,
        family_script(OfflineFamily::ParakeetNemoCtc)
            == "./scripts/download-parakeet-tdt-ctc-110m.sh"@,
{
}

/// A model without a stream can be chosen exactly if none of its files is missing.
pub proof fn law_one_missing_file_is_enough(present: Seq<bool>, there: bool)
    ensures
        all_true(Seq::<bool>::empty()),
        all_true(present.push(there)) <==> all_true(present) && there,
{
    let all = present.push(there);
    assert(all[present.len() as int] == there);
    assert(forall|i: int| 0 <= i < present.len() ==> all[i] == present[i]);
}

/// A name with the mark anywhere in it tells of the enhanced model.
pub proof fn law_mark_anywhere_makes_enhanced(before: Seq<char>, behind: Seq<char>)
    ensures
        named_enhanced(before + "加强版"@ + behind),
        !named_enhanced(Seq::empty()),
{
    text::law_occurs_in_the_middle(before, "加强版"@, behind, Seq::empty());
    reveal_strlit("加强版");
}

/// A model that streams can always be chosen, any other exactly if all of its files
/// are there.
pub proof fn law_missing_file_bars_a_model(kind: SlotKind, present: Seq<bool>, i: int)
    requires
        0 <= i < present.len(),
    ensures
        kind is Online ==> can_be_chosen(kind, present),
        kind is Offline && !present[i] ==> !can_be_chosen(kind, present),
        (forall|j: int| 0 <= j < present.len() ==> #[trigger] present[j]) ==> can_be_chosen(
            kind,
            present,
        ),
{
}

} // verus!
