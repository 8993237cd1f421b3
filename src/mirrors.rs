//! The known mirrors, and the npm registry that a mirror setting selects.
use vstd::prelude::*;

verus! {

/// A known mirror of Node.js releases and of the npm registry.
pub struct MirrorPreset {
    pub id: String,
    pub name: String,
    pub node_url: String,
    pub npm_url: String,
    pub registry_url: String,
    pub description: String,
}

/// A preset as text.
pub struct PresetView {
    pub id: Seq<char>,
    pub name: Seq<char>,
    pub node_url: Seq<char>,
    pub npm_url: Seq<char>,
    pub registry_url: Seq<char>,
    pub description: Seq<char>,
}

impl View for MirrorPreset {
    type V = PresetView;

    open spec fn view(&self) -> PresetView {
        PresetView {
            id: self.id@,
            name: self.name@,
            node_url: self.node_url@,
            npm_url: self.npm_url@,
            registry_url: self.registry_url@,
            description: self.description@,
        }
    }
}

/// The known presets, in order.
pub open spec fn preset_views() -> Seq<PresetView> {
    seq![
        PresetView {
            id: "official"@,
            name: "Official"@,
            node_url: "https://nodejs.org/dist/"@,
            npm_url: "https://github.com/npm/cli/archive/"@,
            registry_url: "https://registry.npmjs.org/"@,
            description: "The official Node.js source, hosted abroad; slower"@,
        },
        PresetView {
            id: "taobao"@,
            name: "Taobao mirror"@,
            node_url: "https://npmmirror.com/mirrors/node/"@,
            npm_url: "https://npmmirror.com/mirrors/npm/"@,
            registry_url: "https://registry.npmmirror.com"@,
            description: "npmmirror by Taobao, recommended in China; fast"@,
        },
        PresetView {
            id: "huawei"@,
            name: "Huawei Cloud mirror"@,
            node_url: "https://repo.huaweicloud.com/nodejs/"@,
            npm_url: "https://repo.huaweicloud.com/npm/"@,
            registry_url: "https://repo.huaweicloud.com/repository/npm/"@,
            description: "Huawei Cloud mirror, an alternative in China"@,
        },
        PresetView {
            id: "tsinghua"@,
            name: "Tsinghua University mirror"@,
            node_url: "https://mirrors.tuna.tsinghua.edu.cn/nodejs-release/"@,
            npm_url: "https://mirrors.tuna.tsinghua.edu.cn/npm/"@,
            registry_url: "https://mirrors.tuna.tsinghua.edu.cn/npm/"@,
            description: "The open source mirror of Tsinghua University"@,
        },
    ]
}

fn preset(
    id: &str,
    name: &str,
    node_url: &str,
    npm_url: &str,
    registry_url: &str,
    description: &str,
) -> (r: MirrorPreset)
    ensures
        r.id@ == id@,
        r.name@ == name@,
        r.node_url@ == node_url@,
        r.npm_url@ == npm_url@,
        r.registry_url@ == registry_url@,
        r.description@ == description@,
{
    MirrorPreset {
        id: String::from_str(id),
        name: String::from_str(name),
        node_url: String::from_str(node_url),
        npm_url: String::from_str(npm_url),
        registry_url: String::from_str(registry_url),
        description: String::from_str(description),
    }
}

/// The known mirror presets: the official source first, then the taobao,
/// huawei and tsinghua mirrors.
pub fn get_all_mirror_presets() -> (r: Vec<MirrorPreset>)
    ensures
        r@.len() == preset_views().len(),
        forall|i: int| 0 <= i < r@.len() ==> #[trigger] r@[i]@ == preset_views()[i],
{
    let mut r: Vec<MirrorPreset> = Vec::new();
    r.push(
        preset(
            "official",
            "Official",
            "https://nodejs.org/dist/",
            "https://github.com/npm/cli/archive/",
            "https://registry.npmjs.org/",
            "The official Node.js source, hosted abroad; slower",
        ),
    );
    r.push(
        preset(
            "taobao",
            "Taobao mirror",
            "https://npmmirror.com/mirrors/node/",
            "https://npmmirror.com/mirrors/npm/",
            "https://registry.npmmirror.com",
            "npmmirror by Taobao, recommended in China; fast",
        ),
    );
    r.push(
        preset(
            "huawei",
            "Huawei Cloud mirror",
            "https://repo.huaweicloud.com/nodejs/",
            "https://repo.huaweicloud.com/npm/",
            "https://repo.huaweicloud.com/repository/npm/",
            "Huawei Cloud mirror, an alternative in China",
        ),
    );
    r.push(
        preset(
            "tsinghua",
            "Tsinghua University mirror",
            "https://mirrors.tuna.tsinghua.edu.cn/nodejs-release/",
            "https://mirrors.tuna.tsinghua.edu.cn/npm/",
            "https://mirrors.tuna.tsinghua.edu.cn/npm/",
            "The open source mirror of Tsinghua University",
        ),
    );
    assert forall|i: int| 0 <= i < r@.len() implies #[trigger] r@[i]@ == preset_views()[i] by {
        assert(r@[i]@ =~= preset_views()[i]);
    }
    r
}

/// Whether `t` occurs in `s`.
pub open spec fn contains_text(s: Seq<char>, t: Seq<char>) -> bool {
    exists|i: int| 0 <= i && i + t.len() <= s.len() && #[trigger] s.subrange(i, i + t.len()) == t
}

/// Whether `t` occurs in `s`.
pub fn contains(s: &str, t: &str) -> (r: bool)
    ensures
        r == contains_text(s@, t@),
{
    let n = s.unicode_len();
    let m = t.unicode_len();
    if m > n {
        return false;
    }
    let target = String::from_str(t);
    let last = n - m;
    let mut i: usize = 0;
    loop
        invariant
            n == s@.len(),
            m == t@.len(),
            m <= n,
            last == n - m,
            i <= last,
            target@ == t@,
            forall|j: int| 0 <= j < i ==> #[trigger] s@.subrange(j, j + m) != t@,
        decreases last - i,
    {
        if String::from_str(s.substring_char(i, i + m)) == target {
            return true;
        }
        if i == last {
            return false;
        }
        i = i + 1;
    }
}

/// The registry of the first preset, from `presets` on, whose npm address is
/// `mirror` or whose id occurs in it.
pub open spec fn first_match(presets: Seq<PresetView>, mirror: Seq<char>) -> Option<Seq<char>>
    decreases presets.len(),
{
    if presets.len() == 0 {
        None
    } else if presets[0].npm_url == mirror || contains_text(mirror, presets[0].id) {
        Some(presets[0].registry_url)
    } else {
        first_match(presets.drop_first(), mirror)
    }
}

/// The registry that `npm` is pointed at for the npm mirror setting
/// `mirror`: none for an empty setting; the registry of the first preset
/// that matches it; the setting itself where it names one of the two public
/// registries; else none, and npm keeps its own configuration.
pub open spec fn registry_for_npm_of(mirror: Seq<char>) -> Option<Seq<char>> {
    if mirror.len() == 0 {
        None
    } else {
        match first_match(preset_views(), mirror) {
            Some(r) => Some(r),
            None => if contains_text(mirror, "registry.npmjs.org"@) || contains_text(
                mirror,
                "registry.npmmirror.com"@,
            ) {
                Some(mirror)
            } else {
                None
            },
        }
    }
}

/// The registry that `npm` is pointed at for the npm mirror setting
/// `npm_mirror`, where one is known.
pub fn get_registry_for_npm(npm_mirror: &str) -> (r: Option<String>)
    ensures
        match r {
            Some(s) => registry_for_npm_of(npm_mirror@) == Some(s@),
            None => registry_for_npm_of(npm_mirror@) is None,
        },
{
    if npm_mirror.unicode_len() == 0 {
        return None;
    }
    let presets = get_all_mirror_presets();
    let mirror = String::from_str(npm_mirror);
    let mut i: usize = 0;
    assert(preset_views().subrange(0, preset_views().len() as int) =~= preset_views());
    while i < presets.len()
        invariant
            presets@.len() == preset_views().len(),
            forall|j: int| 0 <= j < presets@.len() ==> #[trigger] presets@[j]@ == preset_views()[j],
            i <= presets@.len(),
            mirror@ == npm_mirror@,
            npm_mirror@.len() > 0,
            first_match(preset_views(), npm_mirror@) == first_match(
                preset_views().subrange(i as int, preset_views().len() as int),
                npm_mirror@,
            ),
        decreases presets@.len() - i,
    {
        let ghost rest = preset_views().subrange(i as int, preset_views().len() as int);
        assert(rest[0] == presets@[i as int]@);
        if presets[i].npm_url == mirror || contains(npm_mirror, presets[i].id.as_str()) {
            assert(first_match(rest, npm_mirror@) == Some(rest[0].registry_url));
            let found = presets[i].registry_url.clone();
            assert(found@ == rest[0].registry_url);
            return Some(found);
        }
        assert(rest.drop_first() =~= preset_views().subrange(i + 1, preset_views().len() as int));
        i = i + 1;
    }
    assert(preset_views().subrange(i as int, preset_views().len() as int).len() == 0);
    if contains(npm_mirror, "registry.npmjs.org") || contains(npm_mirror, "registry.npmmirror.com") {
        Some(mirror)
    } else {
        None
    }
}

} // verus!
