//! The screen on which models are chosen.

use vstd::prelude::*;
use vstd::string::*;

use crate::models;
use crate::models::{DescView, Language, ModelDesc, SlotKind};
use crate::number;
use crate::segments;
use crate::segments::SegConfig;
use crate::text;
use crate::ui::keys;
use crate::ui::keys::Key;
use crate::ui::style;
use crate::ui::style::{Color, Line, Lines, Span, SpanView, Style};

verus! {

/// The lines of the panel on sentence ends, borders included.
pub const CONFIG_PANEL_LINES: u16 = 8;

/// The choice of models as it stands.
pub struct SelectionScreen {
    pub descs: Vec<ModelDesc>,
    /// The files of the model are there.
    pub available: Vec<bool>,
    pub selected: Vec<bool>,
    pub use_enhanced_config: bool,
}

/// The choice, lists taken as sequences.
#[verifier::ext_equal]
pub struct SelectionView {
    pub descs: Seq<DescView>,
    pub available: Seq<bool>,
    pub selected: Seq<bool>,
    pub use_enhanced_config: bool,
}

impl View for SelectionScreen {
    type V = SelectionView;

    open spec fn view(&self) -> SelectionView {
        SelectionView {
            descs: models::desc_views(self.descs@),
            available: self.available@,
            selected: self.selected@,
            use_enhanced_config: self.use_enhanced_config,
        }
    }
}

/// Every model has its place in all lists, and only what is there is chosen.
pub open spec fn selection_ok(v: SelectionView) -> bool {
    &&& v.descs.len() == v.available.len() == v.selected.len()
    &&& forall|i: int| 0 <= i < v.selected.len() && #[trigger] v.selected[i] ==> v.available[i]
}

/// Some model streams.
pub open spec fn any_online(descs: Seq<DescView>) -> bool {
    exists|i: int| 0 <= i < descs.len() && (#[trigger] descs[i]).kind is Online
}

/// The models without a stream that are there.
pub open spec fn offline_there(descs: Seq<DescView>, available: Seq<bool>) -> Seq<bool> {
    Seq::new(descs.len(), |i: int| available[i] && descs[i].kind is Offline)
}

/// What is chosen at first: the models without a stream that are there, or all
/// that are there if there are none of those.
pub open spec fn first_choice(descs: Seq<DescView>, available: Seq<bool>) -> Seq<bool> {
    let offline = offline_there(descs, available);
    if exists|i: int| 0 <= i < offline.len() && #[trigger] offline[i] {
        offline
    } else {
        available
    }
}

/// The places that are chosen, in order.
pub open spec fn chosen(selected: Seq<bool>) -> Seq<nat>
    decreases selected.len(),
{
    if selected.len() == 0 {
        Seq::empty()
    } else {
        let before = chosen(selected.drop_last());
        if selected.last() {
            before.push((selected.len() - 1) as nat)
        } else {
            before
        }
    }
}

/// What a key does to the choice.
pub open spec fn selection_after(v: SelectionView, key: Key) -> SelectionView {
    if keys::leaves(key) || keys::confirms(key) {
        v
    } else if key == Key::Char('e') && any_online(v.descs) {
        SelectionView { use_enhanced_config: !v.use_enhanced_config, ..v }
    } else {
        match keys::digit_place(key) {
            Some(i) => if i < v.selected.len() && v.available[i as int] {
                SelectionView { selected: v.selected.update(i as int, !v.selected[i as int]), ..v }
            } else {
                v
            },
            None => v,
        }
    }
}

/// What comes of a key.
pub enum SelectionResult {
    Stay,
    Quit,
    /// These models, with these settings of a segmenter if any.
    Chosen { indices: Vec<usize>, config: Option<SegConfig> },
}

/// The places of a list.
pub open spec fn places(indices: Seq<usize>) -> Seq<nat> {
    indices.map_values(|i: usize| i as nat)
}

fn chosen_places(selected: &[bool]) -> (r: Vec<usize>)
    ensures
        places(r@) == chosen(selected@),
{
    let mut out: Vec<usize> = Vec::new();
    let mut i: usize = 0;
    proof {
        assert(selected@.take(0) =~= Seq::<bool>::empty());
        assert(places(out@) =~= Seq::<nat>::empty());
    }
    while i < selected.len()
        invariant
            i <= selected@.len(),
            places(out@) == chosen(selected@.take(i as int)),
        decreases selected@.len() - i,
    {
        let ghost before = places(out@);
        proof {
            assert(selected@.take(i + 1).drop_last() =~= selected@.take(i as int));
        }
        if selected[i] {
            out.push(i);
            proof {
                assert(places(out@) =~= before.push(i as nat));
            }
        }
        i = i + 1;
    }
    proof {
        assert(selected@.take(selected@.len() as int) =~= selected@);
    }
    out
}

/// `r` is what comes of a key: a key that leaves quits, one that confirms hands
/// out the chosen models, if there is one.
pub open spec fn selection_answers(v: SelectionView, key: Key, r: SelectionResult) -> bool {
    match r {
        SelectionResult::Quit => keys::leaves(key),
        SelectionResult::Chosen { indices, config } => {
            &&& keys::confirms(key)
            &&& places(indices@) == chosen(v.selected)
            &&& indices@.len() > 0
            &&& match config {
                Some(c) => v.use_enhanced_config && segments::is_enhanced_preset(c),
                None => !v.use_enhanced_config,
            }
        },
        SelectionResult::Stay => !keys::leaves(key) && !(keys::confirms(key) && chosen(
            v.selected,
        ).len() > 0),
    }
}

impl SelectionScreen {
    /// The first choice among `descs`, of which `available` are there.
    pub fn new(descs: Vec<ModelDesc>, available: Vec<bool>) -> (r: SelectionScreen)
        requires
            descs@.len() == available@.len(),
        ensures
            r@ == (SelectionView {
                descs: models::desc_views(descs@),
                available: available@,
                selected: first_choice(models::desc_views(descs@), available@),
                use_enhanced_config: false,
            }),
            selection_ok(r@),
    {
        let ghost views = models::desc_views(descs@);
        let ghost offline = offline_there(views, available@);
        let mut selected: Vec<bool> = Vec::new();
        let mut any = false;
        let mut i: usize = 0;
        while i < descs.len()
            invariant
                i <= descs@.len() == available@.len(),
                views == models::desc_views(descs@),
                offline == offline_there(views, available@),
                selected@ =~= offline.take(i as int),
                any == exists|j: int| 0 <= j < i && #[trigger] offline[j],
            decreases descs@.len() - i,
        {
            let offline_kind = match descs[i].kind {
                SlotKind::Offline(_) => true,
                SlotKind::Online(_) => false,
            };
            let on = available[i] && offline_kind;
            proof {
                assert(views[i as int] == descs@[i as int]@);
                assert(offline[i as int] == on);
            }
            selected.push(on);
            any = any || on;
            i = i + 1;
        }
        proof {
            assert(offline.take(offline.len() as int) =~= offline);
        }
        if !any {
            let mut all: Vec<bool> = Vec::new();
            let mut j: usize = 0;
            while j < available.len()
                invariant
                    j <= available@.len(),
                    all@ =~= available@.take(j as int),
                decreases available@.len() - j,
            {
                all.push(available[j]);
                j = j + 1;
            }
            selected = all;
        }
        SelectionScreen { descs, available, selected, use_enhanced_config: false }
    }

    /// Whether some model streams.
    pub fn has_any_online(&self) -> (r: bool)
        ensures
            r == any_online(self@.descs),
    {
        let ghost views = self@.descs;
        let mut i: usize = 0;
        while i < self.descs.len()
            invariant
                i <= self.descs@.len(),
                views == models::desc_views(self.descs@),
                forall|j: int| 0 <= j < i ==> !((#[trigger] views[j]).kind is Online),
            decreases self.descs@.len() - i,
        {
            proof {
                assert(views[i as int] == self.descs@[i as int]@);
            }
            match self.descs[i].kind {
                SlotKind::Online(_) => {
                    return true;
                },
                SlotKind::Offline(_) => {},
            }
            i = i + 1;
        }
        false
    }

    /// The height of the panel on sentence ends: none if no model streams.
    pub fn config_panel_height(&self) -> (r: u16)
        ensures
            r == (if any_online(self@.descs) {
                CONFIG_PANEL_LINES
            } else {
                0
            }),
    {
        if self.has_any_online() {
            CONFIG_PANEL_LINES
        } else {
            0
        }
    }

    /// Takes a key.
    pub fn on_key(&mut self, key: Key) -> (r: SelectionResult)
        requires
            selection_ok(old(self)@),
        ensures
            final(self)@ == selection_after(old(self)@, key),
            selection_ok(final(self)@),
            selection_answers(old(self)@, key, r),
    {
        if keys::is_leave(key) {
            return SelectionResult::Quit;
        }
        if keys::is_confirm(key) {
            let indices = chosen_places(self.selected.as_slice());
            if indices.len() == 0 {
                return SelectionResult::Stay;
            }
            let config = if self.use_enhanced_config {
                Some(segments::enhanced_zipformer_en())
            } else {
                None
            };
            return SelectionResult::Chosen { indices, config };
        }
        let toggles = match key {
            Key::Char(c) => c == 'e',
            _ => false,
        };
        if toggles && self.has_any_online() {
            self.use_enhanced_config = !self.use_enhanced_config;
            return SelectionResult::Stay;
        }
        if let Some(i) = keys::digit_index(key) {
            if i < self.selected.len() && self.available[i] {
                let on: bool = self.selected[i];
                self.selected.set(i, !on);
            }
        }
        SelectionResult::Stay
    }
}

// ─── What is shown ─────────────────────────────────────────────────────

/// What a language is called.
pub open spec fn language_text(l: Language) -> Seq<char> {
    match l {
        Language::Chinese => "中文"@,
        Language::English => "英文"@,
    }
}

/// What a kind of model is called.
pub open spec fn kind_text(k: SlotKind) -> Seq<char> {
    match k {
        SlotKind::Online(_) => "流式"@,
        SlotKind::Offline(_) => "离线+VAD"@,
    }
}

/// What follows a model that is not there.
pub open spec fn missing_text(k: SlotKind) -> Seq<char> {
    match k {
        SlotKind::Online(_) => Seq::empty(),
        SlotKind::Offline(family) => "  (未下载: "@ + models::family_script(family) + ")"@,
    }
}

/// The line of the model at place `i`.
pub open spec fn model_line(i: nat, d: DescView, ok: bool, on: bool) -> Seq<SpanView> {
    let mark = if !ok {
        "    "@
    } else if on {
        "[x] "@
    } else {
        "[ ] "@
    };
    let row = mark + d.name + " ("@ + language_text(d.language) + "/"@ + kind_text(d.kind) + ")"@
        + (if ok {
        Seq::empty()
    } else {
        missing_text(d.kind)
    });
    seq![
        style::span(
            " "@ + number::dec(i + 1) + " "@,
            if ok {
                style::colored(Color::Yellow)
            } else {
                style::plain()
            },
        ),
        style::span(
            row,
            style::colored(
                if !ok {
                    Color::DarkGray
                } else if on {
                    Color::Green
                } else {
                    Color::Gray
                },
            ),
        ),
    ]
}

/// The lines of the models.
pub open spec fn model_lines(v: SelectionView) -> Seq<Seq<SpanView>> {
    Seq::new(
        v.descs.len(),
        |i: int| model_line(i as nat, v.descs[i], v.available[i], v.selected[i]),
    )
}

/// The list of models, with what the keys do below.
pub open spec fn selection_lines(v: SelectionView) -> Seq<Seq<SpanView>> {
    model_lines(v).push(Seq::empty()).push(
        seq![
            style::span(
                " 1-9 勾选模型 · e 切换切句配置 · Enter 确认 · q 退出 "@,
                style::colored(Color::DarkGray),
            ),
        ],
    )
}

/// The panel on sentence ends.
pub open spec fn config_lines(enhanced: bool) -> Seq<Seq<SpanView>> {
    let on = style::bold_colored(Color::Green);
    let off = style::colored(Color::Gray);
    seq![
        seq![
            style::span(
                if enhanced {
                    " [ ] 默认（Sherpa 内置端点）"@
                } else {
                    " [x] 默认（Sherpa 内置端点）"@
                },
                if enhanced {
                    off
                } else {
                    on
                },
            ),
        ],
        seq![
            style::span(
                if enhanced {
                    " [x] 加强版Zipformer-en"@
                } else {
                    " [ ] 加强版Zipformer-en"@
                },
                if enhanced {
                    on
                } else {
                    off
                },
            ),
        ],
        Seq::empty(),
        seq![
            style::span(
                if enhanced {
                    "    标点稳定700ms · 冷却1.5s · 兜底10s · 强切25s · VAD收尾300ms"@
                } else {
                    "    Sherpa rule1=2.4s rule2=1.2s rule3=20s"@
                },
                style::colored(Color::DarkGray),
            ),
        ],
        seq![
            style::span(
                "    按 e 切换（仅对流式模型 Zipformer/Nemotron 生效）"@,
                style::colored(Color::DarkGray),
            ),
        ],
    ]
}

/// What is said at the foot of the screen.
pub open spec fn selection_hint(v: SelectionView) -> SpanView {
    let count = chosen(v.selected).len();
    if count == 0 {
        style::span(" 请至少选择一个引擎"@, style::colored(Color::Red))
    } else {
        style::span(
            " 将加载 "@ + number::dec(count) + " 个引擎"@ + (if v.use_enhanced_config && any_online(
                v.descs,
            ) {
                " · 加强版Zipformer-en"@
            } else {
                Seq::empty()
            }) + "（模型较大，加载需几秒）"@,
            style::colored(Color::Green),
        )
    }
}

/// What is said while models load.
pub open spec fn loading_text(names: Seq<Seq<char>>) -> Seq<char> {
    " 正在加载: "@ + text::joined(names, ", "@) + " ... "@
}

/// What is said while the models of these names load.
pub fn loading_message(names: &[String]) -> (r: String)
    ensures
        r@ == loading_text(text::texts(names@)),
{
    let mut out = " 正在加载: ".to_owned();
    out.append(text::join_texts(names, ", ").as_str());
    out.append(" ... ");
    out
}

impl SelectionScreen {
    /// The list of models, with what the keys do below.
    pub fn lines(&self) -> (r: Lines)
        requires
            selection_ok(self@),
        ensures
            r@ == selection_lines(self@),
    {
        let ghost v = self@;
        let mut out = Lines::new();
        let mut i: usize = 0;
        proof {
            assert(out@ =~= model_lines(v).take(0));
        }
        while i < self.descs.len()
            invariant
                i <= self.descs@.len(),
                v == self@,
                selection_ok(v),
                out@ == model_lines(v).take(i as int),
            decreases self.descs@.len() - i,
        {
            let desc = self.descs[i];
            let ok: bool = self.available[i];
            let on: bool = self.selected[i];
            proof {
                assert(v.descs[i as int] == desc@);
            }
            let mut key = " ".to_owned();
            key.append(number::dec_text(i as u64 + 1).as_str());
            key.append(" ");
            let mut row = if !ok {
                "    ".to_owned()
            } else if on {
                "[x] ".to_owned()
            } else {
                "[ ] ".to_owned()
            };
            row.append(desc.name);
            row.append(" (");
            row.append(
                match desc.language {
                    Language::Chinese => "中文",
                    Language::English => "英文",
                },
            );
            row.append("/");
            row.append(
                match desc.kind {
                    SlotKind::Online(_) => "流式",
                    SlotKind::Offline(_) => "离线+VAD",
                },
            );
            row.append(")");
            let mut suffix = String::new();
            if !ok {
                if let Some(script) = desc.missing_files_hint() {
                    suffix = "  (未下载: ".to_owned();
                    suffix.append(script);
                    suffix.append(")");
                }
            }
            row.append(suffix.as_str());
            let mut line = Line::new();
            line.push(
                key.as_str(),
                if ok {
                    Style::colored(Color::Yellow)
                } else {
                    Style::plain()
                },
            );
            line.push(
                row.as_str(),
                Style::colored(
                    if !ok {
                        Color::DarkGray
                    } else if on {
                        Color::Green
                    } else {
                        Color::Gray
                    },
                ),
            );
            proof {
                assert(line@ =~= model_line(i as nat, desc@, ok, on));
                assert(model_lines(v).take(i + 1) =~= out@.push(line@));
            }
            out.push(line);
            i = i + 1;
        }
        proof {
            assert(model_lines(v).take(i as int) =~= model_lines(v));
        }
        out.push_blank();
        out.push_text(
            " 1-9 勾选模型 · e 切换切句配置 · Enter 确认 · q 退出 ",
            Style::colored(Color::DarkGray),
        );
        out
    }

    /// The panel on sentence ends.
    pub fn config_panel(&self) -> (r: Lines)
        ensures
            r@ == config_lines(self.use_enhanced_config),
    {
        let enhanced = self.use_enhanced_config;
        let on = Style::bold_colored(Color::Green);
        let off = Style::colored(Color::Gray);
        let mut out = Lines::new();
        if enhanced {
            out.push_text(" [ ] 默认（Sherpa 内置端点）", off);
            out.push_text(" [x] 加强版Zipformer-en", on);
        } else {
            out.push_text(" [x] 默认（Sherpa 内置端点）", on);
            out.push_text(" [ ] 加强版Zipformer-en", off);
        }
        out.push_blank();
        out.push_text(
            if enhanced {
                "    标点稳定700ms · 冷却1.5s · 兜底10s · 强切25s · VAD收尾300ms"
            } else {
                "    Sherpa rule1=2.4s rule2=1.2s rule3=20s"
            },
            Style::colored(Color::DarkGray),
        );
        out.push_text(
            "    按 e 切换（仅对流式模型 Zipformer/Nemotron 生效）",
            Style::colored(Color::DarkGray),
        );
        proof {
            assert(out@ =~= config_lines(enhanced));
        }
        out
    }

    /// What is said at the foot of the screen.
    pub fn hint(&self) -> (r: Span)
        ensures
            r@ == selection_hint(self@),
    {
        let indices = chosen_places(self.selected.as_slice());
        let count: usize = indices.len();
        proof {
            assert(places(indices@).len() == count);
        }
        if count == 0 {
            return Span::new(" 请至少选择一个引擎", Style::colored(Color::Red));
        }
        let mut out = " 将加载 ".to_owned();
        out.append(number::size_text(count).as_str());
        out.append(" 个引擎");
        let mut tag = String::new();
        if self.use_enhanced_config && self.has_any_online() {
            tag = " · 加强版Zipformer-en".to_owned();
        }
        out.append(tag.as_str());
        out.append("（模型较大，加载需几秒）");
        Span::new(out.as_str(), Style::colored(Color::Green))
    }
}

// ─── Laws ──────────────────────────────────────────────────────────────

/// A model whose files are missing is never chosen, whatever keys are pressed.
pub proof fn law_missing_models_stay_unchosen(v: SelectionView, key: Key, i: int)
    requires
        selection_ok(v),
        0 <= i < v.available.len(),
        !v.available[i],
    ensures
        !selection_after(v, key).selected[i],
        selection_ok(selection_after(v, key)),
{
}

/// Pressing a digit twice changes nothing.
pub proof fn law_digit_twice_is_nothing(v: SelectionView, key: Key)
    requires
        selection_ok(v),
        keys::digit_place(key) is Some,
    ensures
        selection_after(selection_after(v, key), key) == v,
{
    let i = keys::digit_place(key)->0 as int;
    if i < v.selected.len() && v.available[i] {
        assert(v.selected.update(i, !v.selected[i]).update(i, v.selected[i]) =~= v.selected);
    }
}

/// The places that are handed out are chosen, in order, and none is left out.
pub proof fn law_chosen_are_the_selected(selected: Seq<bool>)
    ensures
        chosen(selected).len() <= selected.len(),
        forall|k: int|
            0 <= k < chosen(selected).len() ==> (#[trigger] chosen(selected)[k]) < selected.len()
                && selected[chosen(selected)[k] as int],
        forall|i: int|
            0 <= i < selected.len() && #[trigger] selected[i] ==> chosen(selected).contains(
                i as nat,
            ),
        forall|k: int, l: int|
            0 <= k < l < chosen(selected).len() ==> chosen(selected)[k] < chosen(selected)[l],
    decreases selected.len(),
{
    if selected.len() > 0 {
        let front = selected.drop_last();
        law_chosen_are_the_selected(front);
        let before = chosen(front);
        let after = chosen(selected);
        assert forall|k: int| 0 <= k < after.len() implies (#[trigger] after[k]) < selected.len()
            && selected[after[k] as int] by {
            if k < before.len() {
                assert(after[k] == before[k]);
                assert(front[before[k] as int] == selected[before[k] as int]);
            }
        }
        assert forall|i: int| 0 <= i < selected.len() && #[trigger] selected[i] implies after.contains(
            i as nat,
        ) by {
            if i < front.len() {
                assert(front[i]);
                let k = choose|k: int| 0 <= k < before.len() && before[k] == i as nat;
                assert(after[k] == before[k]);
            } else {
                assert(after[after.len() - 1] == i as nat);
            }
        }
        assert forall|k: int, l: int| 0 <= k < l < after.len() implies after[k] < after[l] by {
            if l < before.len() {
                assert(after[k] == before[k] && after[l] == before[l]);
            } else {
                assert(after[k] == before[k]);
            }
        }
    }
}

/// At first the models without a stream whose files are there are chosen, and no
/// others; if there are none, all models whose files are there.
pub proof fn law_first_choice(descs: Seq<DescView>, available: Seq<bool>, i: int, j: int)
    requires
        descs.len() == available.len(),
        0 <= i < descs.len(),
        0 <= j < descs.len(),
    ensures
        first_choice(descs, available).len() == descs.len(),
        available[j] && descs[j].kind is Offline ==> (first_choice(descs, available)[i]
            <==> available[i] && descs[i].kind is Offline),
        (forall|k: int|
            0 <= k < descs.len() ==> !(#[trigger] available[k] && descs[k].kind is Offline))
            ==> first_choice(descs, available)[i] == available[i],
{
    let offline = offline_there(descs, available);
    assert(offline[j] == (available[j] && descs[j].kind is Offline));
    if exists|k: int| 0 <= k < offline.len() && #[trigger] offline[k] {
        let k = choose|k: int| 0 <= k < offline.len() && #[trigger] offline[k];
        assert(available[k] && descs[k].kind is Offline);
    }
}

/// A digit chooses the model at its place, or drops it, if its files are there; `e`
/// switches the sentence ends if some model streams; no other key changes the
/// choice.
pub proof fn law_keys_change_the_choice(v: SelectionView, d: nat, c: char, i: int)
    requires
        selection_ok(v),
        d < 9,
        0 <= i < v.selected.len(),
    ensures
        ({
            let after = selection_after(v, Key::Char("123456789"@[d as int]));
            &&& after.selected.len() == v.selected.len()
            &&& after.selected[i] == (if i == d && v.available[i] {
                !v.selected[i]
            } else {
                v.selected[i]
            })
            &&& after.use_enhanced_config == v.use_enhanced_config
        }),
        (exists|k: int| 0 <= k < v.descs.len() && (#[trigger] v.descs[k]).kind is Online)
            ==> selection_after(v, Key::Char('e')) == (SelectionView {
            use_enhanced_config: !v.use_enhanced_config,
            ..v
        }),
        (forall|k: int| 0 <= k < v.descs.len() ==> (#[trigger] v.descs[k]).kind is Offline)
            ==> selection_after(v, Key::Char('e')) == v,
        c != 'e' && !(49 <= c as u32 <= 57) ==> selection_after(v, Key::Char(c)) == v,
        selection_after(v, Key::Enter) == v && selection_after(v, Key::Esc) == v,
{
    keys::law_digits_stand_for_places(d, c);
    reveal_strlit("123456789");
    let all = "123456789"@;
    assert(all[0] == '1' && all[1] == '2' && all[2] == '3' && all[3] == '4' && all[4] == '5');
    assert(all[5] == '6' && all[6] == '7' && all[7] == '8' && all[8] == '9');
}

/// One more place is handed out if it is chosen, and none if it is not.
pub proof fn law_chosen_places_are_counted(selected: Seq<bool>, on: bool)
    ensures
        on ==> chosen(selected.push(on)) == chosen(selected).push(selected.len()),
        !on ==> chosen(selected.push(on)) == chosen(selected),
        chosen(Seq::<bool>::empty()).len() == 0,
{
    assert(selected.push(on).drop_last() =~= selected);
}

/// The line of a model names its digit, the model, its language and its kind, with
/// a cross if it is chosen; of one whose files are missing it says how to get them.
pub proof fn law_model_line_tells_the_choice(i: nat, d: DescView, ok: bool, on: bool)
    ensures
        ({
            let line = model_line(i, d, ok, on);
            let what = d.name + " ("@ + (if d.language == Language::Chinese {
                "中文"@
            } else {
                "英文"@
            }) + "/"@ + (if d.kind is Online {
                "流式"@
            } else {
                "离线+VAD"@
            }) + ")"@;
            &&& line.len() == 2
            &&& line[0].text == " "@ + number::dec(i + 1) + " "@
            &&& ok && on ==> line[1].text == "[x] "@ + what
            &&& ok && !on ==> line[1].text == "[ ] "@ + what
            &&& !ok ==> ("    "@ + what).is_prefix_of(line[1].text)
            &&& !ok && d.kind is Online ==> line[1].text == "    "@ + what
            &&& !ok && d.kind is Offline ==> line[1].text == "    "@ + what + ("  (未下载: "@
                + models::family_script(d.kind->Offline_0) + ")"@)
            &&& ok ==> line[0].style == style::colored(Color::Yellow)
            &&& !ok ==> line[0].style == style::plain()
            &&& !ok ==> line[1].style == style::colored(Color::DarkGray)
            &&& ok && on ==> line[1].style == style::colored(Color::Green)
            &&& ok && !on ==> line[1].style == style::colored(Color::Gray)
        }),
{
    let line = model_line(i, d, ok, on);
    let what = d.name + " ("@ + (if d.language == Language::Chinese {
        "中文"@
    } else {
        "英文"@
    }) + "/"@ + (if d.kind is Online {
        "流式"@
    } else {
        "离线+VAD"@
    }) + ")"@;
    let mark = if !ok {
        "    "@
    } else if on {
        "[x] "@
    } else {
        "[ ] "@
    };
    let more = if ok {
        Seq::empty()
    } else {
        missing_text(d.kind)
    };
    assert(line[1].text =~= mark + what + more);
    assert(mark + what + Seq::<char>::empty() =~= mark + what);
    assert((mark + what + more).subrange(0, (mark + what).len() as int) =~= mark + what);
}

/// Every model has its line, in order.
pub proof fn law_every_model_has_its_line(v: SelectionView, i: int)
    requires
        0 <= i < v.descs.len(),
    ensures
        selection_lines(v).len() == v.descs.len() + 2,
        selection_lines(v)[i] == model_line(i as nat, v.descs[i], v.available[i], v.selected[i]),
{
}

/// The panel marks which sentence ends are in use.
pub proof fn law_panel_marks_the_sentence_ends(enhanced: bool)
    ensures
        config_lines(enhanced).len() == 5,
        enhanced ==> config_lines(enhanced)[0][0].text == " [ ] 默认（Sherpa 内置端点）"@
            && config_lines(enhanced)[1][0].text == " [x] 加强版Zipformer-en"@,
        !enhanced ==> config_lines(enhanced)[0][0].text == " [x] 默认（Sherpa 内置端点）"@
            && config_lines(enhanced)[1][0].text == " [ ] 加强版Zipformer-en"@,
{
}

/// The foot tells how many models will be loaded, and asks for one if none is
/// chosen; while they load their names are told.
pub proof fn law_foot_counts_the_chosen(v: SelectionView, a: Seq<char>, b: Seq<char>)
    ensures
        chosen(v.selected).len() == 0 ==> selection_hint(v).text == " 请至少选择一个引擎"@,
        chosen(v.selected).len() > 0 ==> (" 将加载 "@ + number::dec(chosen(v.selected).len())
            + " 个引擎"@).is_prefix_of(selection_hint(v).text),
        loading_text(seq![a, b]) == " 正在加载: "@ + (a + ", "@ + b) + " ... "@,
{
    let count = chosen(v.selected).len();
    let start = " 将加载 "@ + number::dec(count) + " 个引擎"@;
    if count > 0 {
        assert(selection_hint(v).text.subrange(0, start.len() as int) =~= start);
    }
    assert(seq![a, b].drop_last() =~= seq![a]);
    assert(text::joined(seq![a], ", "@) == a);
}

/// Enter hands out exactly the models that are selected, in order, and the preset
/// of the enhanced model if it is in use; with none selected, enter does nothing.
pub proof fn law_enter_hands_out_the_selected(
    v: SelectionView,
    key: Key,
    r: SelectionResult,
    i: int,
)
    requires
        selection_answers(v, key, r),
        0 <= i < v.selected.len(),
    ensures
        key == Key::Esc || key == Key::Char('q') ==> r is Quit,
        key == Key::Enter && v.selected[i] ==> r is Chosen,
        r is Chosen ==> (v.selected[i] <==> places(r->indices@).contains(i as nat)),
        r is Chosen ==> (v.use_enhanced_config <==> r->config is Some),
        r is Chosen && v.use_enhanced_config ==> r->config->0.punct_stability == 700_000_000,
        key == Key::Enter && (forall|j: int|
            0 <= j < v.selected.len() ==> !(#[trigger] v.selected[j])) ==> r is Stay,
        key == Key::Up || key == Key::Down || key == Key::Char('e') || key == Key::Char('1') ==> r
            is Stay,
{
    law_chosen_are_the_selected(v.selected);
    if r is Chosen {
        assert(places(r->indices@).len() == r->indices@.len());
        assert(v.selected[chosen(v.selected)[0] as int]);
    }
    if r is Chosen && places(r->indices@).contains(i as nat) {
        let k = choose|k: int|
            0 <= k < chosen(v.selected).len() && chosen(v.selected)[k] == i as nat;
        assert(v.selected[chosen(v.selected)[k] as int]);
    }
}

} // verus!
