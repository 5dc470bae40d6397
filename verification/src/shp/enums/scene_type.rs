//! The theatres that units are drawn in, and the palettes that go with them.
use vstd::prelude::*;

verus! {

/// What distinguishes a theatre: a description, the name of its unit
/// palette and the letter that marks its files.
pub struct SceneInfo {
    pub cn_desc: &'static str,
    pub pal_prefix: &'static str,
    pub scene_mark: &'static str,
}

#[derive(Clone, Copy, Debug, PartialEq, Eq, Structural)]
pub enum SceneType {
    Urban,
    Snow,
    Tem,
    Anim,
}

/// The palette name of each theatre.
pub open spec fn scene_pal_prefix(t: SceneType) -> Seq<char> {
    match t {
        SceneType::Urban => "uniturb"@,
        SceneType::Snow => "unitsno"@,
        SceneType::Tem => "unittem"@,
        SceneType::Anim => "anim"@,
    }
}

/// The file mark of each theatre.
pub open spec fn scene_mark(t: SceneType) -> Seq<char> {
    match t {
        SceneType::Urban => "u"@,
        SceneType::Snow => "a"@,
        SceneType::Tem => "t"@,
        SceneType::Anim => ""@,
    }
}

/// The description of each theatre.
pub open spec fn scene_desc(t: SceneType) -> Seq<char> {
    match t {
        SceneType::Urban => "城市"@,
        SceneType::Snow => "雪地"@,
        SceneType::Tem => "野外"@,
        SceneType::Anim => "动画"@,
    }
}

impl SceneType {
    pub fn info(&self) -> (r: SceneInfo)
        ensures
            r.pal_prefix@ == scene_pal_prefix(*self),
            r.scene_mark@ == scene_mark(*self),
            r.cn_desc@ == scene_desc(*self),
    {
        match self {
            SceneType::Urban => SceneInfo { cn_desc: "城市", pal_prefix: "uniturb", scene_mark: "u" },
            SceneType::Snow => SceneInfo { cn_desc: "雪地", pal_prefix: "unitsno", scene_mark: "a" },
            SceneType::Tem => SceneInfo { cn_desc: "野外", pal_prefix: "unittem", scene_mark: "t" },
            SceneType::Anim => SceneInfo { cn_desc: "动画", pal_prefix: "anim", scene_mark: "" },
        }
    }
}

} // verus!
