//! The execution-side decisions the scheduler makes before handing a
//! task to the delivery collaborator: validating the addressed device,
//! matching the payload configuration against the task's kind, expanding
//! text macros, and normalizing an image payload (a `data:image/...`
//! URL is cut down to its data part).  The delivery itself — the HTTP
//! call, and the rendering of a composed image — happens outside the
//! library.

use vstd::prelude::*;
use crate::model::{AutomationTask, TaskConfig, TaskType, TextSpan};
use crate::macros::{MacroReplacer, apply_bindings};
use crate::strutil::has_prefix;

verus! {

/// The first index at or after `i` holding `c`, or the length.
pub open spec fn spec_find_char(s: Seq<char>, c: char, i: int) -> int
    decreases s.len() - i,
{
    if 0 <= i < s.len() {
        if s[i] == c {
            i
        } else {
            spec_find_char(s, c, i + 1)
        }
    } else {
        s.len() as int
    }
}

/// Finds the first occurrence of `c` at or after `from`.
pub fn find_char(s: &str, c: char, from: usize) -> (r: usize)
    requires
        from <= s@.len(),
    ensures
        r == spec_find_char(s@, c, from as int),
        from <= r <= s@.len(),
{
    let n = s.unicode_len();
    let mut i: usize = from;
    while i < n && s.get_char(i) != c
        invariant
            n == s@.len(),
            from <= i <= n,
            spec_find_char(s@, c, from as int) == spec_find_char(s@, c, i as int),
        decreases n - i,
    {
        i = i + 1;
    }
    i
}

/// What normalizing an image payload yields: the part after the first
/// comma of a `data:image/...` URL (`None` when such a URL has no
/// comma), any other text unchanged.
pub open spec fn spec_image_payload(s: Seq<char>) -> Option<Seq<char>> {
    if s.len() >= 11 && s.take(11) == "data:image/"@ {
        let k = spec_find_char(s, ',', 0);
        if k == s.len() {
            None
        } else {
            Some(s.skip(k + 1))
        }
    } else {
        Some(s)
    }
}

/// Normalizes an image payload: cuts a `data:image/...` URL down to its
/// data part.
pub fn image_payload(s: &str) -> (r: Option<String>)
    ensures
        match r {
            Some(v) => spec_image_payload(s@) == Some(v@),
            None => spec_image_payload(s@) is None,
        },
{
    proof {
        reveal_strlit("data:image/");
    }
    if has_prefix(s, "data:image/") {
        let k = find_char(s, ',', 0);
        if k == s.unicode_len() {
            None
        } else {
            Some(String::from_str(s.substring_char(k + 1, s.unicode_len())))
        }
    } else {
        Some(String::from_str(s))
    }
}

/// One task's payload, resolved for delivery: the addressed device, the
/// macro-expanded text fields, and for a composed image the render
/// request the renderer collaborator takes.
#[derive(Debug)]
pub enum ExecutionPayload {
    Text {
        device_id: String,
        title: String,
        message: String,
        signature: String,
        icon: Option<String>,
        link: Option<String>,
    },
    Image {
        device_id: String,
        image_data: String,
        link: Option<String>,
    },
    RenderThenImage {
        device_id: String,
        background_color: String,
        background_image: Option<String>,
        texts: Vec<TextSpan>,
        link: Option<String>,
    },
}

/// Whether an optional text is the macro expansion of another.
pub open spec fn opt_expanded(
    r: Option<String>,
    o: Option<String>,
    bs: Seq<(String, String)>,
) -> bool {
    match (r, o) {
        (Some(rv), Some(ov)) => rv@ == apply_bindings(bs, ov@),
        (None, None) => true,
        _ => false,
    }
}

/// Expands the macros of an optional text.
fn expand_opt(o: &Option<String>, replacer: &MacroReplacer) -> (r: Option<String>)
    ensures
        opt_expanded(r, *o, replacer.bindings@),
{
    match o {
        Some(v) => Some(replacer.replace(v.as_str())),
        None => None,
    }
}

/// Whether the payload resolves the task against the given macro
/// bindings: the device is the task's first, the text fields are
/// macro-expanded, an image payload is normalized, and the variant
/// matches the task's kind.
pub open spec fn payload_resolves(
    r: ExecutionPayload,
    t: AutomationTask,
    bs: Seq<(String, String)>,
) -> bool {
    t.device_ids@.len() >= 1 && (match (r, t.task_type, t.config) {
        (
            ExecutionPayload::Text { device_id, title, message, signature, icon, link },
            TaskType::Text,
            TaskConfig::Text { title: t0, message: m0, signature: s0, icon: i0, link: l0 },
        ) => {
            &&& device_id == t.device_ids@[0]
            &&& title@ == apply_bindings(bs, t0@)
            &&& message@ == apply_bindings(bs, m0@)
            &&& signature@ == apply_bindings(bs, s0@)
            &&& icon == i0
            &&& opt_expanded(link, l0, bs)
        },
        (
            ExecutionPayload::Image { device_id, image_data, link },
            TaskType::Image,
            TaskConfig::Image { image_data: d0, algorithm: _, link: l0 },
        ) => {
            &&& device_id == t.device_ids@[0]
            &&& spec_image_payload(d0@) == Some(image_data@)
            &&& opt_expanded(link, l0, bs)
        },
        (
            ExecutionPayload::RenderThenImage {
                device_id,
                background_color,
                background_image,
                texts,
                link,
            },
            TaskType::TextToImage,
            TaskConfig::TextToImage {
                background_color: c0,
                background_image: b0,
                texts: x0,
                link: l0,
            },
        ) => {
            &&& device_id == t.device_ids@[0]
            &&& background_color == c0
            &&& background_image == b0
            &&& texts@.len() == x0@.len()
            &&& (forall|i: int|
                0 <= i < texts@.len() ==> (#[trigger] texts@[i]).id == x0@[i].id
                    && texts@[i].content@ == apply_bindings(bs, x0@[i].content@))
            &&& opt_expanded(link, l0, bs)
        },
        _ => false,
    })
}

/// Whether `prepare_payload` rejects the task: no device, a blank first
/// device id, a payload configuration of the wrong kind, or an image
/// data URL with no data part — tested in that order.
pub open spec fn payload_rejected(t: AutomationTask) -> bool {
    ||| t.device_ids@.len() == 0
    ||| crate::strutil::spec_trim(t.device_ids@[0]@).len() == 0
    ||| !t.config.spec_matches_type(t.task_type)
    ||| (t.config matches TaskConfig::Image { image_data, .. } && spec_image_payload(
        image_data@,
    ) is None)
}

/// Resolves one task's payload for delivery.
///
/// Rejected inputs, each with its own error, first test that applies:
/// a task with no device, a task whose first device id is blank, a
/// payload configuration that does not match the task's kind, and an
/// image data URL with no data part.  Everything else resolves.
pub fn prepare_payload(task: &AutomationTask, replacer: &MacroReplacer) -> (r: Result<
    ExecutionPayload,
    String,
>)
    ensures
        r is Err <==> payload_rejected(*task),
        match r {
            Ok(p) => payload_resolves(p, *task, replacer.bindings@)
                && crate::strutil::spec_trim(task.device_ids@[0]@).len() > 0
                && task.config.spec_matches_type(task.task_type),
            Err(e) => {
                if task.device_ids@.len() == 0 {
                    e@ == "没有指定设备"@
                } else if crate::strutil::spec_trim(task.device_ids@[0]@).len() == 0 {
                    e@ == "设备ID为空"@
                } else if !task.config.spec_matches_type(task.task_type) {
                    e@ == "任务配置类型不匹配"@
                } else {
                    e@ == "Invalid image data format"@ && (task.config matches TaskConfig::Image {
                        image_data,
                        ..
                    } && spec_image_payload(image_data@) is None)
                }
            },
        },
{
    if task.device_ids.len() == 0 {
        return Err(String::from_str("没有指定设备"));
    }
    let device = &task.device_ids[0];
    if crate::strutil::trim(device.as_str()).unicode_len() == 0 {
        return Err(String::from_str("设备ID为空"));
    }
    match (&task.task_type, &task.config) {
        (TaskType::Text, TaskConfig::Text { title, message, signature, icon, link }) => {
            Ok(ExecutionPayload::Text {
                device_id: device.clone(),
                title: replacer.replace(title.as_str()),
                message: replacer.replace(message.as_str()),
                signature: replacer.replace(signature.as_str()),
                icon: icon.clone(),
                link: expand_opt(link, replacer),
            })
        },
        (TaskType::Image, TaskConfig::Image { image_data, algorithm: _, link }) => {
            match image_payload(image_data.as_str()) {
                Some(data) => Ok(ExecutionPayload::Image {
                    device_id: device.clone(),
                    image_data: data,
                    link: expand_opt(link, replacer),
                }),
                None => Err(String::from_str("Invalid image data format")),
            }
        },
        (
            TaskType::TextToImage,
            TaskConfig::TextToImage { background_color, background_image, texts, link },
        ) => {
            let mut out: Vec<TextSpan> = Vec::new();
            let mut i: usize = 0;
            while i < texts.len()
                invariant
                    i <= texts@.len(),
                    out@.len() == i,
                    forall|k: int|
                        0 <= k < i ==> (#[trigger] out@[k]).id == texts@[k].id
                            && out@[k].content@ == apply_bindings(
                            replacer.bindings@,
                            texts@[k].content@,
                        ),
                decreases texts@.len() - i,
            {
                let span = TextSpan {
                    id: texts[i].id.clone(),
                    content: replacer.replace(texts[i].content.as_str()),
                };
                out.push(span);
                i = i + 1;
            }
            Ok(ExecutionPayload::RenderThenImage {
                device_id: device.clone(),
                background_color: background_color.clone(),
                background_image: background_image.clone(),
                texts: out,
                link: expand_opt(link, replacer),
            })
        },
        _ => Err(String::from_str("任务配置类型不匹配")),
    }
}

} // verus!
