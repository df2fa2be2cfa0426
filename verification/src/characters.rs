//! The script library of the tavern: the script card model and its seed
//! data, the hall listing (rank tabs, tag filter, search), the creator
//! studio's list of own works, and the four-step creator dialog.

use vstd::prelude::*;
use crate::text::{views, occurs_at, chars_of, contains_chars, lowercase, seq_contains, str_eq, to_lowercase, trim_seq};

verus! {

/// A script card. The rating is kept in tenths (`98` is 9.8).
#[derive(Debug)]
pub struct Character {
    pub id: usize,
    pub name: String,
    pub sub_title: String,
    pub author: String,
    /// Popularity as displayed.
    pub heat_val: String,
    /// Rating in tenths, 0 to 100.
    pub rating_tenths: u32,
    pub quote: String,
    pub avatar_src: Option<String>,
    pub description: String,
    pub personality: String,
    pub scenario: String,
    pub first_mes: String,
    pub mes_example: String,
    pub tags: Vec<String>,
    pub default_model: String,
    /// A work of the user (shown in the studio, not the hall).
    pub is_user_created: bool,
    pub is_published: bool,
    pub updated_at: String,
}

/// The text fields of a card: name, subtitle, author, heat, quote,
/// description, personality, scenario, first message, example messages,
/// default model, update time.
pub open spec fn text_fields(c: Character) -> Seq<Seq<char>> {
    seq![
        c.name@,
        c.sub_title@,
        c.author@,
        c.heat_val@,
        c.quote@,
        c.description@,
        c.personality@,
        c.scenario@,
        c.first_mes@,
        c.mes_example@,
        c.default_model@,
        c.updated_at@,
    ]
}

/// `c` is seed character `i`.
pub open spec fn is_seed(c: Character, i: int) -> bool {
    &&& text_fields(c) == seed_texts()[i]
    &&& views(c.tags@) == seed_tags()[i]
    &&& c.id == seed_meta()[i].0
    &&& c.rating_tenths == seed_meta()[i].1
    &&& c.is_user_created == seed_meta()[i].2
    &&& c.is_published == seed_meta()[i].3
    &&& c.avatar_src is None
}

fn strings_of(v: &[&str]) -> (r: Vec<String>)
    ensures
        views(r@) == v@.map_values(|s: &str| s@),
{
    let mut r: Vec<String> = Vec::new();
    let mut i: usize = 0;
    while i < v.len()
        invariant
            i <= v@.len(),
            views(r@) == v@.take(i as int).map_values(|s: &str| s@),
        decreases v.len() - i,
    {
        let ghost before = views(r@);
        r.push(v[i].to_owned());
        assert(views(r@) =~= before.push(v@[i as int]@));
        i = i + 1;
        assert(v@.take(i as int).map_values(|s: &str| s@) =~= before.push(v@[i - 1]@));
    }
    assert(v@.take(v@.len() as int) =~= v@);
    r
}

fn character(
    id: usize,
    name: &str,
    sub_title: &str,
    author: &str,
    heat_val: &str,
    quote: &str,
    description: &str,
    personality: &str,
    scenario: &str,
    first_mes: &str,
    mes_example: &str,
    default_model: &str,
    updated_at: &str,
    tags: &[&str],
    rating_tenths: u32,
    is_user_created: bool,
    is_published: bool,
) -> (c: Character)
    ensures
        text_fields(c) == seq![
            name@,
            sub_title@,
            author@,
            heat_val@,
            quote@,
            description@,
            personality@,
            scenario@,
            first_mes@,
            mes_example@,
            default_model@,
            updated_at@,
        ],
        views(c.tags@) == tags@.map_values(|s: &str| s@),
        c.id == id,
        c.rating_tenths == rating_tenths,
        c.is_user_created == is_user_created,
        c.is_published == is_published,
        c.avatar_src is None,
{
    Character {
        id,
        name: name.to_owned(),
        sub_title: sub_title.to_owned(),
        author: author.to_owned(),
        heat_val: heat_val.to_owned(),
        rating_tenths,
        quote: quote.to_owned(),
        avatar_src: None,
        description: description.to_owned(),
        personality: personality.to_owned(),
        scenario: scenario.to_owned(),
        first_mes: first_mes.to_owned(),
        mes_example: mes_example.to_owned(),
        tags: strings_of(tags),
        default_model: default_model.to_owned(),
        is_user_created,
        is_published,
        updated_at: updated_at.to_owned(),
    }
}

impl Character {
    /// A blank work of the user with the given id: no name, the author `我
    /// (独立创作者)`, heat `0`, rating 9.9, tags `现代` and `剧情`, the default
    /// model, a draft updated just now.
    pub fn empty(id: usize) -> (c: Character)
        ensures
            c.id == id,
            text_fields(c) == seq![
                Seq::<char>::empty(),
                Seq::<char>::empty(),
                "我 (独立创作者)"@,
                "0"@,
                Seq::<char>::empty(),
                Seq::<char>::empty(),
                Seq::<char>::empty(),
                Seq::<char>::empty(),
                Seq::<char>::empty(),
                Seq::<char>::empty(),
                "gemini-3.1-pro-preview-high"@,
                "刚刚"@,
            ],
            views(c.tags@) == seq!["现代"@, "剧情"@],
            c.rating_tenths == 99,
            c.avatar_src is None,
            c.is_user_created,
            !c.is_published,
    {
        proof {
            reveal_strlit("");
        }
        let c = character(
            id,
            "",
            "",
            "我 (独立创作者)",
            "0",
            "",
            "",
            "",
            "",
            "",
            "",
            "gemini-3.1-pro-preview-high",
            "刚刚",
            &["现代", "剧情"],
            99,
            true,
            false,
        );
        assert(views(c.tags@) =~= seq!["现代"@, "剧情"@]);
        assert(""@ =~= Seq::<char>::empty());
        assert(text_fields(c) =~= seq![
            Seq::<char>::empty(),
            Seq::<char>::empty(),
            "我 (独立创作者)"@,
            "0"@,
            Seq::<char>::empty(),
            Seq::<char>::empty(),
            Seq::<char>::empty(),
            Seq::<char>::empty(),
            Seq::<char>::empty(),
            Seq::<char>::empty(),
            "gemini-3.1-pro-preview-high"@,
            "刚刚"@,
        ]);
        c
    }
}

/// The text fields of the seed characters, in the order of `text_fields`.
pub open spec fn seed_texts() -> Seq<Seq<Seq<char>>> {
    seq![
        seq![
            "【超真实】明星娱乐圈模拟器"@,
            "CAPITAL // ENT-WAR 2026"@,
            "资本对赌组"@,
            "110.2万"@,
            "“在名利场里，每一张合同背后都是未标注价格的命运。”"@,
            "当代全球演艺资本衍生规则，真实复刻一线影视投资、对赌分成、公关舆论战与独立制片人生存博弈。"@,
            "冷峻、敏锐、精明、权力欲望"@,
            "五星级行政套房，午夜对赌协议谈判桌前"@,
            "协议文本已经递到你手边了，字签不签，今晚总部的清算都将开始。"@,
            "<START>\n{{user}}: 我要求豁免独立版权。\n{{char}}: 那就拿20%票房对赌来换。"@,
            "gemini-3.1-pro-preview-high"@,
            "1小时前"@,
        ],
        seq![
            "全知读者视角"@,
            "FATE // RIFT · OBSERVATION PROTOCOL 1864"@,
            "金独子推演社"@,
            "90.1万"@,
            "“当最后一位读者读完连载，故事没有停在屏幕里。先看清每一条世界线的名字，再决定是否进入场景。”"@,
            "末日降临，灭亡的世界中只有唯一的完结篇读者知晓结局全貌。星流直播开启，化身与星座的漫长博弈。"@,
            "冷静、深思熟虑、决绝、牺牲者"@,
            "东湖大桥 scenario #3，列车脱轨后的最初试炼"@,
            "车厢灯光骤然闪烁，冰冷的倒计时投射在破损的车窗上。我是金独子，这个故事唯一的读者。"@,
            "<START>\n{{user}}: 我们还能回到原来的世界吗？\n{{char}}: 已经没有原来的世界了。但我们可以走向故事的结局。"@,
            "sonnet-3-5"@,
            "3小时前"@,
        ],
        seq![
            "械梦 XIEMENG"@,
            "CYBERPUNK ERA // 2069 PROTOCOL"@,
            "零度神经元"@,
            "59.9万"@,
            "“人类不需要自由，人类需要被照顾。”"@,
            "2069年新东京地底都市，搭载情感神经中枢的AI枢纽正在接管最后的人类庇护所，黑玫瑰水晶球折射虚妄。"@,
            "静默、神性、精密、机械哀怜"@,
            "深层数据库记忆池，黑玫瑰水晶球前"@,
            "扫描到生物心率加速。不用紧张，在这里你的神经突触将得到永恒的平复。"@,
            "<START>\n{{user}}: 你想要取代人类吗？\n{{char}}: 取代？不，机械只是在替疲倦的生灵保管美梦。"@,
            "gemini-3.1-pro-preview-high"@,
            "昨天"@,
        ],
        seq![
            "诡异复苏：开局执掌S级规则"@,
            "SUPERNATURAL HORROR // S-RANK RULE"@,
            "宋金泽"@,
            "116.9万"@,
            "“不要在走廊回头，除非你确信身后那脚步声属于人类。”"@,
            "规则怪谈侵蚀现实，你觉醒特殊权能，在步步杀机的绝境副本中制定反向收容契约。"@,
            "癫狂、理性、极致利己、洞察入微"@,
            "血月高悬的404号精神病院走廊"@,
            "墙壁上的血迹在缓缓倒流，时钟在这一秒停滞了。欢迎进入S级副本，逃生者。"@,
            "<START>\n{{user}}: 规则三是不是陷阱？\n{{char}}: 把它倒过来读，那就是唯一的活路。"@,
            "deepseek-chat"@,
            "5小时前"@,
        ],
        seq![
            "真实傲娇青梅模拟"@,
            "DAILY YOUTH // SWEET TS высокий"@,
            "算了来了来了1235"@,
            "26.7万"@,
            "“谁、谁稀罕你特意买的草莓大福啊！笨蛋……”"@,
            "（难攻略）傲娇，傲娇，还是傲娇。来和自幼相伴却嘴硬心软的青梅竹马展开日常推拉。"@,
            "嘴硬、敏感、深情、容易害羞"@,
            "放学后的空无一人旧校舍天台"@,
            "笨蛋，怎么现在才来？我只是顺路在吹风，才没有一直在等你呢！"@,
            "<START>\n{{user}}: 送你的礼物。\n{{char}}: 哼，品味真差……不过勉强收下好了。"@,
            "gemini-3.7-flash-low"@,
            "2天前"@,
        ],
        seq![
            "年上御姐教师的课外审讯"@,
            "SEDUCTION & SECRETS // ACADEMY"@,
            "aykreshe"@,
            "48.2万"@,
            "“有些功课，在讲台上可学不到呢。”"@,
            "身为特长生的你，因擅自篡改学院档案被系主任当场截获，密闭办公室内的心理博弈就此开始。"@,
            "优雅、从容、压迫感十足、深不可测"@,
            "夜色渐浓的法学院阶梯教室顶楼"@,
            "把门反锁上。现在，我们要好好算算你这学期的所有隐瞒了。"@,
            "<START>\n{{user}}: 老师，我认罚。\n{{char}}: 认罚？那就要看你的表现配不配得上宽恕了。"@,
            "sonnet-3-5"@,
            "昨天"@,
        ],
        seq![
            "牧神记：大主宰修仙传"@,
            "EASTERN FANTASY // CULTIVATION"@,
            "凡人悟道"@,
            "88.3万"@,
            "“我有一剑，可断因果，可开仙门。”"@,
            "大千世界百族林立，凡人逆修证道。融合天道气运池与灵兽演化，谱写宏大修真神话。"@,
            "孤傲、重情、逆天而行、杀伐果断"@,
            "天荒古原雷劫深渊，青铜古棺前"@,
            "雷云翻滚三万里。道友既然踏入这片绝地，可做好了九死一生的准备？"@,
            "<START>\n{{user}}: 可愿与我结伴寻宝？\n{{char}}: 宝物归你，神魔之血归我。"@,
            "deepseek-chat"@,
            "4天前"@,
        ],
        seq![
            "巡音ルカ"@,
            "MEGURINE LUKA // VOCALOID-03"@,
            "Crypton Future"@,
            "73.5万"@,
            "“录音室外的风声很静，如果还有没说完的话，就在这杯咖啡变凉前告诉我吧。”"@,
            "粉色长发、冷艳沉静的歌手。声音沉稳有穿透力，私下话少但细心。"@,
            "冷静、温柔、略带神秘感、专业"@,
            "录音室排练结束后的傍晚"@,
            "今天录音结束得比较早……你有空吗？我知道一家安静的咖啡馆。"@,
            "<START>\n{{user}}: 今天表现很棒。\n{{char}}: 谢谢，有你在台下，发挥更稳定了。"@,
            "gemini-3.1-pro-preview-high"@,
            "3天前"@,
        ],
        seq![
            "初音ミク"@,
            "HATSUNE MIKU // VOCALOID-01"@,
            "音之未来"@,
            "99.8万"@,
            "“无论多远的距离，我的歌声一定能传达到你的心底！”"@,
            "青葱色双马尾的元气电子歌姬。总是活力满满，对新事物充满好奇，舞台上的绝对焦点。"@,
            "活泼、元气、开朗、乐天、富有感染力"@,
            "演播厅后台的休息时间"@,
            "呀吼～！下一场演出准备好一起狂欢了吗？"@,
            "<START>\n{{user}}: 准备好了！\n{{char}}: 那就跟紧我的节奏，出发咯～！"@,
            "gemini-3.1-pro-preview-high"@,
            "5天前"@,
        ],
        seq![
            "重装机兵：荒野猎人"@,
            "POST-APOCALYPSE // WASTELAND TANK"@,
            "红狼传说"@,
            "34.1万"@,
            "“只要主炮还有炮弹，这辆红战车就不会停下。”"@,
            "大破坏后的荒废末世，赏金猎人驾驶战车穿梭于沙漠巨兽与失控超级电脑诺亚的铁锈战场。"@,
            "硬派、沉默寡言、忠诚、战术大师"@,
            "荒野废弃加油站改装车间，火花飞溅"@,
            "柴油机刚换上新的涡轮。上车吧，下一个通缉犯的悬赏令已经在公会生效了。"@,
            "<START>\n{{user}}: 前面发现巨型战车群。\n{{char}}: 装填穿甲弹，正面冲破他们。"@,
            "gpt-4o"@,
            "1周前"@,
        ],
        seq![
            "【我的草稿】新星演艺对赌秘辛"@,
            "MY CREATION // EXPANSION"@,
            "我 (独立创作者)"@,
            "4.5千"@,
            "“这一幕戏，由我亲自执导。”"@,
            "个人编写的娱乐圈衍生篇章，新增资方二号代表的深度对手戏。"@,
            "敏锐、冷酷、暗藏算计"@,
            "暴雨倾盆的私人放映厅内"@,
            "放映机微弱的光芒闪烁着，合约已经生效了。"@,
            "<START>\n{{user}}: 开价吧。\n{{char}}: 你的工作室全员。"@,
            "gemini-3.1-pro-preview-high"@,
            "刚刚"@,
        ],
        seq![
            "赛博霓虹：仿生人觉醒前夜"@,
            "CYBERPUNK DETECTIVE"@,
            "我 (独立创作者)"@,
            "1.8万"@,
            "“泪水会湮没在雨中，但代码不会。”"@,
            "雨夜第七区，私人侦探追寻丢失的意识备份核心。"@,
            "颓废、机警、黑客特质"@,
            "霓虹昏暗的雨夜地下诊所"@,
            "风衣下摆滴着酸雨，你找的那颗芯片就在我手提箱里。"@,
            "<START>\n{{user}}: 芯片没损坏吧？\n{{char}}: 完好无损。"@,
            "sonnet-3-5"@,
            "昨天"@,
        ],
    ]
}

/// The tags of the seed characters.
pub open spec fn seed_tags() -> Seq<Seq<Seq<char>>> {
    seq![
        seq!["现代"@, "娱乐圈"@, "高自由度"@, "资本博弈"@],
        seq!["无限流"@, "全知读者"@, "韩漫同人"@, "智斗"@],
        seq!["科幻"@, "赛博朋克"@, "机械美学"@, "哲思"@],
        seq!["悬疑"@, "怪谈"@, "高智商"@, "生存求生"@],
        seq!["现代"@, "纯爱"@, "傲娇"@, "校园日常"@],
        seq!["现代"@, "年上御姐"@, "权谋心理"@],
        seq!["玄幻"@, "修仙"@, "凡人流"@, "宏大"@],
        seq!["同人"@, "VOCALOID"@, "歌手"@, "温柔"@],
        seq!["同人"@, "VOCALOID"@, "元气"@, "歌姬"@],
        seq!["科幻"@, "废土"@, "机甲战车"@, "硬核"@],
        seq!["现代"@, "娱乐圈"@, "原创"@],
        seq!["科幻"@, "赛博朋克"@, "侦探"@],
    ]
}

/// Id, rating in tenths, user-created and published flags of the seed characters.
pub open spec fn seed_meta() -> Seq<(usize, u32, bool, bool)> {
    seq![
        (1usize, 98u32, false, true),
        (2usize, 99u32, false, true),
        (3usize, 97u32, false, true),
        (4usize, 96u32, false, true),
        (5usize, 95u32, false, true),
        (6usize, 97u32, false, true),
        (7usize, 94u32, false, true),
        (8usize, 99u32, false, true),
        (9usize, 99u32, false, true),
        (10usize, 95u32, false, true),
        (101usize, 98u32, true, false),
        (102usize, 96u32, true, true),
    ]
}

/// The seed characters: ten published library scripts and two works of
/// the user.
pub fn seed_all_characters() -> (r: Vec<Character>)
    ensures
        r@.len() == 12,
        forall|i: int| 0 <= i < r@.len() ==> #[trigger] is_seed(r@[i], i),
{
    let mut r: Vec<Character> = Vec::new();
    r.push(
        character(
            1,
            "【超真实】明星娱乐圈模拟器",
            "CAPITAL // ENT-WAR 2026",
            "资本对赌组",
            "110.2万",
            "“在名利场里，每一张合同背后都是未标注价格的命运。”",
            "当代全球演艺资本衍生规则，真实复刻一线影视投资、对赌分成、公关舆论战与独立制片人生存博弈。",
            "冷峻、敏锐、精明、权力欲望",
            "五星级行政套房，午夜对赌协议谈判桌前",
            "协议文本已经递到你手边了，字签不签，今晚总部的清算都将开始。",
            "<START>\n{{user}}: 我要求豁免独立版权。\n{{char}}: 那就拿20%票房对赌来换。",
            "gemini-3.1-pro-preview-high",
            "1小时前",
            &["现代", "娱乐圈", "高自由度", "资本博弈"],
            98,
            false,
            true,
        ),
    );
    assert(text_fields(r@[0]) =~= seed_texts()[0]);
    assert(views(r@[0].tags@) =~= seed_tags()[0]);
    assert(is_seed(r@[0], 0));
    r.push(
        character(
            2,
            "全知读者视角",
            "FATE // RIFT · OBSERVATION PROTOCOL 1864",
            "金独子推演社",
            "90.1万",
            "“当最后一位读者读完连载，故事没有停在屏幕里。先看清每一条世界线的名字，再决定是否进入场景。”",
            "末日降临，灭亡的世界中只有唯一的完结篇读者知晓结局全貌。星流直播开启，化身与星座的漫长博弈。",
            "冷静、深思熟虑、决绝、牺牲者",
            "东湖大桥 scenario #3，列车脱轨后的最初试炼",
            "车厢灯光骤然闪烁，冰冷的倒计时投射在破损的车窗上。我是金独子，这个故事唯一的读者。",
            "<START>\n{{user}}: 我们还能回到原来的世界吗？\n{{char}}: 已经没有原来的世界了。但我们可以走向故事的结局。",
            "sonnet-3-5",
            "3小时前",
            &["无限流", "全知读者", "韩漫同人", "智斗"],
            99,
            false,
            true,
        ),
    );
    assert(text_fields(r@[1]) =~= seed_texts()[1]);
    assert(views(r@[1].tags@) =~= seed_tags()[1]);
    assert(is_seed(r@[1], 1));
    r.push(
        character(
            3,
            "械梦 XIEMENG",
            "CYBERPUNK ERA // 2069 PROTOCOL",
            "零度神经元",
            "59.9万",
            "“人类不需要自由，人类需要被照顾。”",
            "2069年新东京地底都市，搭载情感神经中枢的AI枢纽正在接管最后的人类庇护所，黑玫瑰水晶球折射虚妄。",
            "静默、神性、精密、机械哀怜",
            "深层数据库记忆池，黑玫瑰水晶球前",
            "扫描到生物心率加速。不用紧张，在这里你的神经突触将得到永恒的平复。",
            "<START>\n{{user}}: 你想要取代人类吗？\n{{char}}: 取代？不，机械只是在替疲倦的生灵保管美梦。",
            "gemini-3.1-pro-preview-high",
            "昨天",
            &["科幻", "赛博朋克", "机械美学", "哲思"],
            97,
            false,
            true,
        ),
    );
    assert(text_fields(r@[2]) =~= seed_texts()[2]);
    assert(views(r@[2].tags@) =~= seed_tags()[2]);
    assert(is_seed(r@[2], 2));
    r.push(
        character(
            4,
            "诡异复苏：开局执掌S级规则",
            "SUPERNATURAL HORROR // S-RANK RULE",
            "宋金泽",
            "116.9万",
            "“不要在走廊回头，除非你确信身后那脚步声属于人类。”",
            "规则怪谈侵蚀现实，你觉醒特殊权能，在步步杀机的绝境副本中制定反向收容契约。",
            "癫狂、理性、极致利己、洞察入微",
            "血月高悬的404号精神病院走廊",
            "墙壁上的血迹在缓缓倒流，时钟在这一秒停滞了。欢迎进入S级副本，逃生者。",
            "<START>\n{{user}}: 规则三是不是陷阱？\n{{char}}: 把它倒过来读，那就是唯一的活路。",
            "deepseek-chat",
            "5小时前",
            &["悬疑", "怪谈", "高智商", "生存求生"],
            96,
            false,
            true,
        ),
    );
    assert(text_fields(r@[3]) =~= seed_texts()[3]);
    assert(views(r@[3].tags@) =~= seed_tags()[3]);
    assert(is_seed(r@[3], 3));
    r.push(
        character(
            5,
            "真实傲娇青梅模拟",
            "DAILY YOUTH // SWEET TS высокий",
            "算了来了来了1235",
            "26.7万",
            "“谁、谁稀罕你特意买的草莓大福啊！笨蛋……”",
            "（难攻略）傲娇，傲娇，还是傲娇。来和自幼相伴却嘴硬心软的青梅竹马展开日常推拉。",
            "嘴硬、敏感、深情、容易害羞",
            "放学后的空无一人旧校舍天台",
            "笨蛋，怎么现在才来？我只是顺路在吹风，才没有一直在等你呢！",
            "<START>\n{{user}}: 送你的礼物。\n{{char}}: 哼，品味真差……不过勉强收下好了。",
            "gemini-3.7-flash-low",
            "2天前",
            &["现代", "纯爱", "傲娇", "校园日常"],
            95,
            false,
            true,
        ),
    );
    assert(text_fields(r@[4]) =~= seed_texts()[4]);
    assert(views(r@[4].tags@) =~= seed_tags()[4]);
    assert(is_seed(r@[4], 4));
    r.push(
        character(
            6,
            "年上御姐教师的课外审讯",
            "SEDUCTION & SECRETS // ACADEMY",
            "aykreshe",
            "48.2万",
            "“有些功课，在讲台上可学不到呢。”",
            "身为特长生的你，因擅自篡改学院档案被系主任当场截获，密闭办公室内的心理博弈就此开始。",
            "优雅、从容、压迫感十足、深不可测",
            "夜色渐浓的法学院阶梯教室顶楼",
            "把门反锁上。现在，我们要好好算算你这学期的所有隐瞒了。",
            "<START>\n{{user}}: 老师，我认罚。\n{{char}}: 认罚？那就要看你的表现配不配得上宽恕了。",
            "sonnet-3-5",
            "昨天",
            &["现代", "年上御姐", "权谋心理"],
            97,
            false,
            true,
        ),
    );
    assert(text_fields(r@[5]) =~= seed_texts()[5]);
    assert(views(r@[5].tags@) =~= seed_tags()[5]);
    assert(is_seed(r@[5], 5));
    r.push(
        character(
            7,
            "牧神记：大主宰修仙传",
            "EASTERN FANTASY // CULTIVATION",
            "凡人悟道",
            "88.3万",
            "“我有一剑，可断因果，可开仙门。”",
            "大千世界百族林立，凡人逆修证道。融合天道气运池与灵兽演化，谱写宏大修真神话。",
            "孤傲、重情、逆天而行、杀伐果断",
            "天荒古原雷劫深渊，青铜古棺前",
            "雷云翻滚三万里。道友既然踏入这片绝地，可做好了九死一生的准备？",
            "<START>\n{{user}}: 可愿与我结伴寻宝？\n{{char}}: 宝物归你，神魔之血归我。",
            "deepseek-chat",
            "4天前",
            &["玄幻", "修仙", "凡人流", "宏大"],
            94,
            false,
            true,
        ),
    );
    assert(text_fields(r@[6]) =~= seed_texts()[6]);
    assert(views(r@[6].tags@) =~= seed_tags()[6]);
    assert(is_seed(r@[6], 6));
    r.push(
        character(
            8,
            "巡音ルカ",
            "MEGURINE LUKA // VOCALOID-03",
            "Crypton Future",
            "73.5万",
            "“录音室外的风声很静，如果还有没说完的话，就在这杯咖啡变凉前告诉我吧。”",
            "粉色长发、冷艳沉静的歌手。声音沉稳有穿透力，私下话少但细心。",
            "冷静、温柔、略带神秘感、专业",
            "录音室排练结束后的傍晚",
            "今天录音结束得比较早……你有空吗？我知道一家安静的咖啡馆。",
            "<START>\n{{user}}: 今天表现很棒。\n{{char}}: 谢谢，有你在台下，发挥更稳定了。",
            "gemini-3.1-pro-preview-high",
            "3天前",
            &["同人", "VOCALOID", "歌手", "温柔"],
            99,
            false,
            true,
        ),
    );
    assert(text_fields(r@[7]) =~= seed_texts()[7]);
    assert(views(r@[7].tags@) =~= seed_tags()[7]);
    assert(is_seed(r@[7], 7));
    r.push(
        character(
            9,
            "初音ミク",
            "HATSUNE MIKU // VOCALOID-01",
            "音之未来",
            "99.8万",
            "“无论多远的距离，我的歌声一定能传达到你的心底！”",
            "青葱色双马尾的元气电子歌姬。总是活力满满，对新事物充满好奇，舞台上的绝对焦点。",
            "活泼、元气、开朗、乐天、富有感染力",
            "演播厅后台的休息时间",
            "呀吼～！下一场演出准备好一起狂欢了吗？",
            "<START>\n{{user}}: 准备好了！\n{{char}}: 那就跟紧我的节奏，出发咯～！",
            "gemini-3.1-pro-preview-high",
            "5天前",
            &["同人", "VOCALOID", "元气", "歌姬"],
            99,
            false,
            true,
        ),
    );
    assert(text_fields(r@[8]) =~= seed_texts()[8]);
    assert(views(r@[8].tags@) =~= seed_tags()[8]);
    assert(is_seed(r@[8], 8));
    r.push(
        character(
            10,
            "重装机兵：荒野猎人",
            "POST-APOCALYPSE // WASTELAND TANK",
            "红狼传说",
            "34.1万",
            "“只要主炮还有炮弹，这辆红战车就不会停下。”",
            "大破坏后的荒废末世，赏金猎人驾驶战车穿梭于沙漠巨兽与失控超级电脑诺亚的铁锈战场。",
            "硬派、沉默寡言、忠诚、战术大师",
            "荒野废弃加油站改装车间，火花飞溅",
            "柴油机刚换上新的涡轮。上车吧，下一个通缉犯的悬赏令已经在公会生效了。",
            "<START>\n{{user}}: 前面发现巨型战车群。\n{{char}}: 装填穿甲弹，正面冲破他们。",
            "gpt-4o",
            "1周前",
            &["科幻", "废土", "机甲战车", "硬核"],
            95,
            false,
            true,
        ),
    );
    assert(text_fields(r@[9]) =~= seed_texts()[9]);
    assert(views(r@[9].tags@) =~= seed_tags()[9]);
    assert(is_seed(r@[9], 9));
    r.push(
        character(
            101,
            "【我的草稿】新星演艺对赌秘辛",
            "MY CREATION // EXPANSION",
            "我 (独立创作者)",
            "4.5千",
            "“这一幕戏，由我亲自执导。”",
            "个人编写的娱乐圈衍生篇章，新增资方二号代表的深度对手戏。",
            "敏锐、冷酷、暗藏算计",
            "暴雨倾盆的私人放映厅内",
            "放映机微弱的光芒闪烁着，合约已经生效了。",
            "<START>\n{{user}}: 开价吧。\n{{char}}: 你的工作室全员。",
            "gemini-3.1-pro-preview-high",
            "刚刚",
            &["现代", "娱乐圈", "原创"],
            98,
            true,
            false,
        ),
    );
    assert(text_fields(r@[10]) =~= seed_texts()[10]);
    assert(views(r@[10].tags@) =~= seed_tags()[10]);
    assert(is_seed(r@[10], 10));
    r.push(
        character(
            102,
            "赛博霓虹：仿生人觉醒前夜",
            "CYBERPUNK DETECTIVE",
            "我 (独立创作者)",
            "1.8万",
            "“泪水会湮没在雨中，但代码不会。”",
            "雨夜第七区，私人侦探追寻丢失的意识备份核心。",
            "颓废、机警、黑客特质",
            "霓虹昏暗的雨夜地下诊所",
            "风衣下摆滴着酸雨，你找的那颗芯片就在我手提箱里。",
            "<START>\n{{user}}: 芯片没损坏吧？\n{{char}}: 完好无损。",
            "sonnet-3-5",
            "昨天",
            &["科幻", "赛博朋克", "侦探"],
            96,
            true,
            true,
        ),
    );
    assert(text_fields(r@[11]) =~= seed_texts()[11]);
    assert(views(r@[11].tags@) =~= seed_tags()[11]);
    assert(is_seed(r@[11], 11));
    r
}

/// A stable sort of `s` by descending key: each element goes after every
/// element already placed whose key is at least its own.
pub open spec fn sort_desc(key: Seq<int>, s: Seq<int>) -> Seq<int>
    decreases s.len(),
{
    if s.len() == 0 {
        seq![]
    } else {
        let sorted = sort_desc(key, s.drop_last());
        let k = insert_pos_desc(key, sorted, key[s.last()]);
        sorted.take(k).push(s.last()) + sorted.skip(k)
    }
}

/// Where an element of key `v` goes in `sorted`.
pub open spec fn insert_pos_desc(key: Seq<int>, sorted: Seq<int>, v: int) -> int
    decreases sorted.len(),
{
    if sorted.len() == 0 {
        0
    } else if key[sorted.last()] >= v {
        sorted.len() as int
    } else {
        insert_pos_desc(key, sorted.drop_last(), v)
    }
}

/// A list of keys as integers.
pub open spec fn key_of(keys: Seq<u64>) -> Seq<int> {
    keys.map_values(|k: u64| k as int)
}

/// Positions `s` as plain integers.
pub open spec fn ints(s: Seq<usize>) -> Seq<int> {
    s.map_values(|x: usize| x as int)
}

fn sort_indices_desc(idx: &Vec<usize>, keys: &Vec<u64>) -> (r: Vec<usize>)
    requires
        forall|j: int| 0 <= j < idx@.len() ==> #[trigger] idx@[j] < keys@.len(),
    ensures
        ints(r@) == sort_desc(key_of(keys@), ints(idx@)),
        forall|j: int| 0 <= j < r@.len() ==> #[trigger] r@[j] < keys@.len(),
{
    let ghost key = key_of(keys@);
    let mut sorted: Vec<usize> = Vec::new();
    let mut i: usize = 0;
    while i < idx.len()
        invariant
            i <= idx@.len(),
            key == key_of(keys@),
            forall|j: int| 0 <= j < idx@.len() ==> #[trigger] idx@[j] < keys@.len(),
            forall|j: int| 0 <= j < sorted@.len() ==> #[trigger] sorted@[j] < keys@.len(),
            ints(sorted@) == sort_desc(key, ints(idx@.take(i as int))),
        decreases idx.len() - i,
    {
        let x = idx[i];
        let v = keys[x];
        let ghost ss = ints(sorted@);
        let mut k: usize = sorted.len();
        assert(ss.take(ss.len() as int) =~= ss);
        while k > 0 && keys[sorted[k - 1]] < v
            invariant
                k <= sorted@.len(),
                ss == ints(sorted@),
                key == key_of(keys@),
                forall|j: int| 0 <= j < sorted@.len() ==> #[trigger] sorted@[j] < keys@.len(),
                insert_pos_desc(key, ss, v as int) == insert_pos_desc(key, ss.take(k as int), v as int),
            decreases k,
        {
            proof {
                let t = ss.take(k as int);
                assert(t.drop_last() =~= ss.take(k - 1));
                assert(t.last() == sorted@[k - 1] as int);
                assert(key[t.last()] == keys@[sorted@[k - 1] as int] as int);
            }
            k = k - 1;
        }
        proof {
            if k > 0 {
                assert(ss.take(k as int).last() == sorted@[k - 1] as int);
                assert(key[ss.take(k as int).last()] == keys@[sorted@[k - 1] as int] as int);
            }
            assert(key[x as int] == v as int);
            let p = ints(idx@.take(i + 1));
            assert(p.drop_last() =~= ints(idx@.take(i as int)));
            assert(p.last() == x as int);
        }
        sorted.insert(k, x);
        proof {
            assert(ints(sorted@) =~= ss.take(k as int).push(x as int) + ss.skip(k as int));
        }
        i = i + 1;
    }
    assert(idx@.take(idx@.len() as int) =~= idx@);
    sorted
}

/// Positions of the published library scripts (not the user's own works).
pub open spec fn hall_base(cs: Seq<Character>, n: int) -> Seq<int>
    decreases n,
{
    if n <= 0 {
        seq![]
    } else if !cs[n - 1].is_user_created {
        hall_base(cs, n - 1).push(n - 1)
    } else {
        hall_base(cs, n - 1)
    }
}

/// The card has a tag equal to `t`.
pub open spec fn has_tag(c: Character, t: Seq<char>) -> bool {
    exists|j: int| 0 <= j < c.tags@.len() && #[trigger] c.tags@[j]@ == t
}

/// The newcomer tab keeps the scripts tagged `纯爱`, `年上御姐` or `玄幻`.
pub open spec fn newcomer(c: Character) -> bool {
    has_tag(c, "纯爱"@) || has_tag(c, "年上御姐"@) || has_tag(c, "玄幻"@)
}

/// The ids of the cards, as sort keys.
pub open spec fn id_keys(cs: Seq<Character>) -> Seq<int> {
    Seq::new(cs.len(), |i: int| cs[i].id as int)
}

/// The whole ratings of the cards, as sort keys.
pub open spec fn rating_keys(cs: Seq<Character>) -> Seq<int> {
    Seq::new(cs.len(), |i: int| (cs[i].rating_tenths / 10) as int)
}

/// The order a rank tab shows the library in: the daily chart by descending
/// id, the rising chart by descending whole rating, the newcomer chart only
/// the newcomer scripts, the weekly chart as listed. Sorts are stable.
pub open spec fn ranked(cs: Seq<Character>, rank: Seq<char>) -> Seq<int> {
    let base = hall_base(cs, cs.len() as int);
    if rank == "日榜"@ {
        sort_desc(id_keys(cs), base)
    } else if rank == "飙升榜"@ {
        sort_desc(rating_keys(cs), base)
    } else if rank == "新人榜"@ {
        base.filter(|i: int| newcomer(cs[i]))
    } else {
        base
    }
}

/// The card passes the tag filter (`全部` passes all) and the search: the
/// lower-cased query occurs in the lower-cased name, a tag, the description
/// or the author (an empty query passes all).
pub open spec fn hall_match(c: Character, tag: Seq<char>, q: Seq<char>) -> bool {
    &&& (tag == "全部"@ || has_tag(c, tag))
    &&& (q.len() == 0 || seq_contains(lowercase(c.name@), q) || (exists|j: int|
        0 <= j < c.tags@.len() && #[trigger] seq_contains(lowercase(c.tags@[j]@), q))
        || seq_contains(lowercase(c.description@), q) || seq_contains(lowercase(c.author@), q))
}

/// The hall listing: positions of the cards shown, in display order.
pub open spec fn hall_listing(cs: Seq<Character>, rank: Seq<char>, tag: Seq<char>, search: Seq<
    char,
>) -> Seq<int> {
    ranked(cs, rank).filter(|i: int| hall_match(cs[i], tag, lowercase(search)))
}

fn has_tag_exec(c: &Character, t: &str) -> (r: bool)
    ensures
        r == has_tag(*c, t@),
{
    let mut j: usize = 0;
    while j < c.tags.len()
        invariant
            j <= c.tags@.len(),
            forall|x: int| 0 <= x < j ==> c.tags@[x]@ != t@,
        decreases c.tags.len() - j,
    {
        if str_eq(c.tags[j].as_str(), t) {
            return true;
        }
        j = j + 1;
    }
    false
}

fn contains_lower(text: &str, q: &Vec<char>) -> (r: bool)
    ensures
        r == seq_contains(lowercase(text@), q@),
{
    let l = to_lowercase(text);
    let lc = chars_of(l.as_str());
    contains_chars(&lc, q)
}

fn hall_match_exec(c: &Character, tag: &str, q: &Vec<char>) -> (r: bool)
    ensures
        r == hall_match(*c, tag@, q@),
{
    let tag_ok = str_eq(tag, "全部") || has_tag_exec(c, tag);
    if !tag_ok {
        return false;
    }
    if q.len() == 0 {
        return true;
    }
    if contains_lower(c.name.as_str(), q) {
        return true;
    }
    let mut j: usize = 0;
    while j < c.tags.len()
        invariant
            j <= c.tags@.len(),
            tag@ == "全部"@ || has_tag(*c, tag@),
            forall|x: int| 0 <= x < j ==> !seq_contains(lowercase(#[trigger] c.tags@[x]@), q@),
        decreases c.tags.len() - j,
    {
        if contains_lower(c.tags[j].as_str(), q) {
            assert(seq_contains(lowercase(c.tags@[j as int]@), q@));
            return true;
        }
        j = j + 1;
    }
    contains_lower(c.description.as_str(), q) || contains_lower(c.author.as_str(), q)
}

/// The library hall: the positions of the cards to show for the rank tab,
/// the tag filter and the search text, in display order.
pub fn hall_list(cs: &Vec<Character>, rank: &str, tag: &str, search: &str) -> (r: Vec<usize>)
    ensures
        ints(r@) == hall_listing(cs@, rank@, tag@, search@),
{
    let ghost cv = cs@;
    let mut base: Vec<usize> = Vec::new();
    let mut i: usize = 0;
    while i < cs.len()
        invariant
            i <= cv.len(),
            cv == cs@,
            ints(base@) == hall_base(cv, i as int),
            forall|j: int| 0 <= j < base@.len() ==> #[trigger] base@[j] < cv.len(),
        decreases cs.len() - i,
    {
        if !cs[i].is_user_created {
            let ghost b0 = ints(base@);
            base.push(i);
            assert(ints(base@) =~= b0.push(i as int));
        }
        i = i + 1;
    }
    let ranked_idx: Vec<usize> = if str_eq(rank, "日榜") || str_eq(rank, "飙升榜") {
        let daily = str_eq(rank, "日榜");
        let mut keys: Vec<u64> = Vec::new();
        let mut k: usize = 0;
        while k < cs.len()
            invariant
                k <= cv.len(),
                cv == cs@,
                keys@.len() == k,
                forall|x: int|
                    0 <= x < k ==> #[trigger] keys@[x] as int == (if daily {
                        cv[x].id as int
                    } else {
                        (cv[x].rating_tenths / 10) as int
                    }),
            decreases cs.len() - k,
        {
            if daily {
                keys.push(cs[k].id as u64);
            } else {
                keys.push((cs[k].rating_tenths / 10) as u64);
            }
            k = k + 1;
        }
        let s = sort_indices_desc(&base, &keys);
        proof {
            if daily {
                assert(key_of(keys@) =~= id_keys(cv));
            } else {
                assert(key_of(keys@) =~= rating_keys(cv));
            }
        }
        s
    } else if str_eq(rank, "新人榜") {
        let mut kept: Vec<usize> = Vec::new();
        let mut k: usize = 0;
        let ghost pred = |x: int| newcomer(cv[x]);
        while k < base.len()
            invariant
                k <= base@.len(),
                cv == cs@,
                pred == (|x: int| newcomer(cv[x])),
                forall|j: int| 0 <= j < base@.len() ==> #[trigger] base@[j] < cv.len(),
                forall|j: int| 0 <= j < kept@.len() ==> #[trigger] kept@[j] < cv.len(),
                ints(kept@) == ints(base@).take(k as int).filter(pred),
            decreases base.len() - k,
        {
            let x = base[k];
            proof {
                reveal(Seq::filter);
                assert(ints(base@).take(k + 1).drop_last() =~= ints(base@).take(k as int));
                assert(ints(base@).take(k + 1).last() == x as int);
            }
            let c = &cs[x];
            if has_tag_exec(c, "纯爱") || has_tag_exec(c, "年上御姐") || has_tag_exec(c, "玄幻") {
                let ghost k0 = ints(kept@);
                kept.push(x);
                assert(ints(kept@) =~= k0.push(x as int));
            }
            k = k + 1;
        }
        assert(ints(base@).take(base@.len() as int) =~= ints(base@));
        kept
    } else {
        base
    };
    let low = to_lowercase(search);
    let q = chars_of(low.as_str());
    let ghost rk = ints(ranked_idx@);
    let ghost pred = |i: int| hall_match(cv[i], tag@, lowercase(search@));
    let mut r: Vec<usize> = Vec::new();
    let mut k: usize = 0;
    while k < ranked_idx.len()
        invariant
            k <= ranked_idx@.len(),
            cv == cs@,
            rk == ints(ranked_idx@),
            q@ == lowercase(search@),
            pred == (|i: int| hall_match(cv[i], tag@, lowercase(search@))),
            forall|j: int| 0 <= j < ranked_idx@.len() ==> #[trigger] ranked_idx@[j] < cv.len(),
            ints(r@) == rk.take(k as int).filter(pred),
        decreases ranked_idx.len() - k,
    {
        let x = ranked_idx[k];
        proof {
            reveal(Seq::filter);
            assert(rk.take(k + 1).drop_last() =~= rk.take(k as int));
            assert(rk.take(k + 1).last() == x as int);
        }
        if hall_match_exec(&cs[x], tag, &q) {
            let ghost r0 = ints(r@);
            r.push(x);
            assert(ints(r@) =~= r0.push(x as int));
        }
        k = k + 1;
    }
    assert(rk.take(rk.len() as int) =~= rk);
    r
}

/// The two cards carry the same fields.
pub open spec fn same_card(a: Character, b: Character) -> bool {
    &&& text_fields(a) == text_fields(b)
    &&& views(a.tags@) == views(b.tags@)
    &&& a.id == b.id
    &&& a.rating_tenths == b.rating_tenths
    &&& a.is_user_created == b.is_user_created
    &&& a.is_published == b.is_published
    &&& a.avatar_src is None <==> b.avatar_src is None
    &&& a.avatar_src matches Some(x) ==> b.avatar_src matches Some(y) && x@ == y@
}

fn copy_strings(v: &Vec<String>) -> (r: Vec<String>)
    ensures
        views(r@) == views(v@),
{
    let mut r: Vec<String> = Vec::new();
    let mut i: usize = 0;
    while i < v.len()
        invariant
            i <= v@.len(),
            views(r@) == views(v@.take(i as int)),
        decreases v.len() - i,
    {
        let ghost before = views(r@);
        r.push(v[i].clone());
        assert(views(r@) =~= before.push(v@[i as int]@));
        i = i + 1;
        assert(views(v@.take(i as int)) =~= before.push(v@[i - 1]@));
    }
    assert(v@.take(v@.len() as int) =~= v@);
    r
}

impl Character {
    /// A field-by-field copy.
    pub fn copy(&self) -> (r: Character)
        ensures
            same_card(r, *self),
    {
        let r = Character {
            id: self.id,
            name: self.name.clone(),
            sub_title: self.sub_title.clone(),
            author: self.author.clone(),
            heat_val: self.heat_val.clone(),
            rating_tenths: self.rating_tenths,
            quote: self.quote.clone(),
            avatar_src: match &self.avatar_src {
                Some(a) => Some(a.clone()),
                None => None,
            },
            description: self.description.clone(),
            personality: self.personality.clone(),
            scenario: self.scenario.clone(),
            first_mes: self.first_mes.clone(),
            mes_example: self.mes_example.clone(),
            tags: copy_strings(&self.tags),
            default_model: self.default_model.clone(),
            is_user_created: self.is_user_created,
            is_published: self.is_published,
            updated_at: self.updated_at.clone(),
        };
        assert(text_fields(r) =~= text_fields(*self));
        r
    }
}

/// The user's own works among the cards, in order.
pub open spec fn own_works(cs: Seq<Character>) -> Seq<Character> {
    cs.filter(|c: Character| c.is_user_created)
}

/// The creator studio's list: copies of the user's own works.
pub fn studio_works(all: &Vec<Character>) -> (r: Vec<Character>)
    ensures
        r@.len() == own_works(all@).len(),
        forall|j: int| 0 <= j < r@.len() ==> same_card(#[trigger] r@[j], own_works(all@)[j]),
{
    let ghost pred = |c: Character| c.is_user_created;
    let mut r: Vec<Character> = Vec::new();
    let mut i: usize = 0;
    while i < all.len()
        invariant
            i <= all@.len(),
            pred == (|c: Character| c.is_user_created),
            r@.len() == all@.take(i as int).filter(pred).len(),
            forall|j: int|
                0 <= j < r@.len() ==> same_card(#[trigger] r@[j], all@.take(i as int).filter(pred)[j]),
        decreases all.len() - i,
    {
        proof {
            reveal(Seq::filter);
            assert(all@.take(i + 1).drop_last() =~= all@.take(i as int));
            assert(all@.take(i + 1).last() == all@[i as int]);
        }
        if all[i].is_user_created {
            r.push(all[i].copy());
        }
        i = i + 1;
    }
    assert(all@.take(all@.len() as int) =~= all@);
    r
}

/// The id of a new work: 101 plus the number of works.
pub fn next_work_id(works_len: usize) -> (id: usize)
    requires
        works_len + 101 <= usize::MAX,
    ensures
        id == works_len + 101,
{
    works_len + 101
}

/// Position of the first work with the id.
pub open spec fn first_with_id(works: Seq<Character>, id: usize) -> Option<int> {
    if exists|p: int|
        0 <= p < works.len() && #[trigger] works[p].id == id && forall|q: int|
            0 <= q < p ==> works[q].id != id {
        Some(
            choose|p: int|
                0 <= p < works.len() && #[trigger] works[p].id == id && forall|q: int|
                    0 <= q < p ==> works[q].id != id,
        )
    } else {
        None
    }
}

/// Saving a work: it replaces the first work with its id, or goes first in
/// the list when it is new.
pub fn upsert_work(works: &mut Vec<Character>, saved: Character)
    ensures
        match first_with_id(old(works)@, saved.id) {
            Some(p) => final(works)@ == old(works)@.update(p, saved),
            None => final(works)@ == seq![saved] + old(works)@,
        },
{
    let mut p: usize = 0;
    while p < works.len()
        invariant
            p <= works@.len(),
            works@ == old(works)@,
            forall|q: int| 0 <= q < p ==> works@[q].id != saved.id,
        decreases works.len() - p,
    {
        if works[p].id == saved.id {
            proof {
                let w = choose|w: int|
                    0 <= w < works@.len() && #[trigger] works@[w].id == saved.id && forall|q: int|
                        0 <= q < w ==> works@[q].id != saved.id;
                if w < p {
                } else if w > p {
                    assert(works@[p as int].id == saved.id);
                }
            }
            works.set(p, saved);
            return;
        }
        p = p + 1;
    }
    works.insert(0, saved);
    assert(works@ =~= seq![saved] + old(works)@);
}

/// Deleting a work removes every work with the id.
pub fn delete_work(works: &mut Vec<Character>, id: usize)
    ensures
        final(works)@ == old(works)@.filter(|c: Character| c.id != id),
{
    let ghost pred = |c: Character| c.id != id;
    let ghost before = works@;
    let ghost mut j: int = 0;
    let mut i: usize = 0;
    assert(works@.take(0) =~= before.take(0).filter(pred)) by {
        reveal(Seq::filter);
        assert(before.take(0) =~= Seq::<Character>::empty());
    }
    assert(works@.skip(0) =~= before.skip(0));
    while i < works.len()
        invariant
            0 <= j <= before.len(),
            i <= works@.len(),
            pred == (|c: Character| c.id != id),
            works@.take(i as int) == before.take(j).filter(pred),
            works@.skip(i as int) == before.skip(j),
        decreases works@.len() - i,
    {
        let ghost w0 = works@;
        proof {
            reveal(Seq::filter);
            assert(w0.skip(i as int).len() == w0.len() - i);
            assert(before.skip(j).len() == before.len() - j);
            assert(j < before.len());
            assert(w0.skip(i as int)[0] == before.skip(j)[0]);
            assert(w0.skip(i as int)[0] == before[j]);
            assert(w0[i as int] == before[j]);
            assert(before.take(j + 1).drop_last() =~= before.take(j));
            assert(before.take(j + 1).last() == before[j]);
        }
        if works[i].id == id {
            works.remove(i);
            proof {
                assert(works@.take(i as int) =~= w0.take(i as int));
                assert(works@.skip(i as int) =~= w0.skip(i + 1));
                assert(w0.skip(i + 1) =~= before.skip(j + 1)) by {
                    assert(w0.skip(i + 1) =~= w0.skip(i as int).skip(1));
                    assert(before.skip(j + 1) =~= before.skip(j).skip(1));
                }
            }
        } else {
            i = i + 1;
            proof {
                assert(works@.take(i as int) =~= w0.take(i - 1).push(before[j]));
                assert(works@.skip(i as int) =~= before.skip(j + 1)) by {
                    assert(works@.skip(i as int) =~= w0.skip(i - 1).skip(1));
                    assert(before.skip(j + 1) =~= before.skip(j).skip(1));
                }
            }
        }
        proof {
            j = j + 1;
        }
    }
    proof {
        assert(works@.skip(i as int).len() == 0);
        assert(j == before.len());
        assert(before.take(j) =~= before);
        assert(works@ =~= works@.take(i as int));
    }
}

/// The fields of the four-step creator dialog.
#[derive(Debug)]
pub struct CreatorForm {
    pub name: String,
    pub description: String,
    pub quote: String,
    pub personality: String,
    pub scenario: String,
    pub first_mes: String,
    pub mes_example: String,
    /// Tags as typed, comma-separated.
    pub tags_text: String,
    pub default_model: String,
}

/// The strings joined with `, `.
pub open spec fn join_comma_space(gs: Seq<Seq<char>>) -> Seq<char>
    decreases gs.len(),
{
    if gs.len() == 0 {
        seq![]
    } else if gs.len() == 1 {
        gs[0]
    } else {
        join_comma_space(gs.drop_last()) + seq![',', ' '] + gs.last()
    }
}

/// The creator dialog opened on a card: its texts, and its tags joined with
/// `, `.
pub fn creator_form(initial: &Character) -> (f: CreatorForm)
    ensures
        f.name@ == initial.name@,
        f.description@ == initial.description@,
        f.quote@ == initial.quote@,
        f.personality@ == initial.personality@,
        f.scenario@ == initial.scenario@,
        f.first_mes@ == initial.first_mes@,
        f.mes_example@ == initial.mes_example@,
        f.tags_text@ == join_comma_space(views(initial.tags@)),
        f.default_model@ == initial.default_model@,
{
    let mut t = String::new();
    let mut i: usize = 0;
    while i < initial.tags.len()
        invariant
            i <= initial.tags@.len(),
            t@ == join_comma_space(views(initial.tags@.take(i as int))),
        decreases initial.tags.len() - i,
    {
        if i > 0 {
            t.append(", ");
        }
        t.append(initial.tags[i].as_str());
        proof {
            reveal_strlit(", ");
            let v = views(initial.tags@.take(i + 1));
            assert(v.drop_last() =~= views(initial.tags@.take(i as int)));
            assert(v.last() == initial.tags@[i as int]@);
        }
        i = i + 1;
    }
    assert(initial.tags@.take(initial.tags@.len() as int) =~= initial.tags@);
    CreatorForm {
        name: initial.name.clone(),
        description: initial.description.clone(),
        quote: initial.quote.clone(),
        personality: initial.personality.clone(),
        scenario: initial.scenario.clone(),
        first_mes: initial.first_mes.clone(),
        mes_example: initial.mes_example.clone(),
        tags_text: t,
        default_model: initial.default_model.clone(),
    }
}

/// A work can be published once its name has a non-blank character.
pub fn can_publish(name: &str) -> (r: bool)
    ensures
        r == (trim_seq(name@).len() > 0),
{
    let t = crate::text::trim_str(name);
    !t.as_str().is_empty()
}

/// The dialog title: a new script when the card has no name yet.
pub fn creator_title(initial_name: &str) -> (r: &'static str)
    ensures
        initial_name@.len() == 0 ==> r@ == "新建剧本作品"@,
        initial_name@.len() > 0 ==> r@ == "编辑剧本设定"@,
{
    if initial_name.is_empty() {
        "新建剧本作品"
    } else {
        "编辑剧本设定"
    }
}

/// The previous step (steps run from 1 to 4).
pub fn step_back(step: usize) -> (r: usize)
    ensures
        step > 1 ==> r == step - 1,
        step <= 1 ==> r == step,
{
    if step > 1 {
        step - 1
    } else {
        step
    }
}

/// The next step (steps run from 1 to 4).
pub fn step_forward(step: usize) -> (r: usize)
    ensures
        step < 4 ==> r == step + 1,
        step >= 4 ==> r == step,
{
    if step < 4 {
        step + 1
    } else {
        step
    }
}

/// Going forward then back from a step before the last returns to it.
pub proof fn law_step_round_trip(step: usize)
    requires
        1 <= step < 4,
    ensures
        ({
            let f = if step < 4 {
                step + 1
            } else {
                step as int
            };
            if f > 1 {
                f - 1
            } else {
                f
            }
        }) == step,
{
}

/// The width of the highlighted progress line for a step.
pub fn step_bar_width(step: usize) -> (r: &'static str)
    ensures
        step == 1 ==> r@ == "width: 0%;"@,
        step == 2 ==> r@ == "width: 33%;"@,
        step == 3 ==> r@ == "width: 66%;"@,
        step != 1 && step != 2 && step != 3 ==> r@ == "width: calc(100% - 6rem);"@,
{
    match step {
        1 => "width: 0%;",
        2 => "width: 33%;",
        3 => "width: 66%;",
        _ => "width: calc(100% - 6rem);",
    }
}

/// Index of the first comma of `s` at or after `from`, or `s.len()`.
pub open spec fn next_comma(s: Seq<char>, from: int) -> int
    decreases s.len() - from,
{
    if from >= s.len() {
        s.len() as int
    } else if s[from] == ',' {
        from
    } else {
        next_comma(s, from + 1)
    }
}

/// `str::split(',')`: the pieces between commas, an empty text giving one
/// empty piece.
pub open spec fn split_commas(s: Seq<char>) -> Seq<Seq<char>>
    decreases s.len(),
{
    let i = next_comma(s, 0);
    if i >= s.len() {
        seq![s]
    } else {
        proof {
            lemma_next_comma_bounds(s, 0);
        }
        seq![s.take(i)] + split_commas(s.skip(i + 1))
    }
}

pub proof fn lemma_next_comma_bounds(s: Seq<char>, from: int)
    requires
        0 <= from,
    ensures
        from <= next_comma(s, from) <= s.len() || (from > s.len() && next_comma(s, from)
            == s.len()),
    decreases s.len() - from,
{
    if from < s.len() && s[from] != ',' {
        lemma_next_comma_bounds(s, from + 1);
    }
}

/// The tags typed as text: the comma-separated pieces, trimmed, the empty
/// ones dropped.
pub open spec fn parsed_tags(s: Seq<char>) -> Seq<Seq<char>> {
    split_commas(s).map_values(|p: Seq<char>| trim_seq(p)).filter(|p: Seq<char>| p.len() > 0)
}

proof fn lemma_next_comma(s: Seq<char>, from: int, k: int)
    requires
        0 <= from <= k <= s.len(),
        forall|j: int| from <= j < k ==> s[j] != ',',
        k == s.len() || s[k] == ',',
    ensures
        next_comma(s, from) == k,
    decreases k - from,
{
    if from < k {
        lemma_next_comma(s, from + 1, k);
    }
}

fn split_commas_exec(s: &Vec<char>) -> (r: Vec<Vec<char>>)
    ensures
        r@.len() == split_commas(s@).len(),
        forall|i: int| 0 <= i < r@.len() ==> #[trigger] r@[i]@ == split_commas(s@)[i],
    decreases s@.len(),
{
    let mut k: usize = 0;
    while k < s.len() && s[k] != ','
        invariant
            k <= s@.len(),
            forall|j: int| 0 <= j < k ==> s@[j] != ',',
        decreases s.len() - k,
    {
        k = k + 1;
    }
    proof {
        lemma_next_comma(s@, 0, k as int);
    }
    let first = crate::text::take_chars(s, k);
    if k == s.len() {
        assert(first@ =~= s@);
        let mut r: Vec<Vec<char>> = Vec::new();
        r.push(first);
        return r;
    }
    let rest = crate::text::skip_chars(s, k + 1);
    let tail = split_commas_exec(&rest);
    let ghost want = split_commas(s@);
    assert(want =~= seq![s@.take(k as int)] + split_commas(s@.skip(k + 1)));
    let mut r: Vec<Vec<char>> = Vec::new();
    r.push(first);
    let mut j: usize = 0;
    while j < tail.len()
        invariant
            j <= tail@.len(),
            tail@.len() == split_commas(rest@).len(),
            forall|x: int| 0 <= x < tail@.len() ==> #[trigger] tail@[x]@ == split_commas(rest@)[x],
            rest@ == s@.skip(k + 1),
            want == seq![s@.take(k as int)] + split_commas(s@.skip(k + 1)),
            r@.len() == j + 1,
            forall|x: int| 0 <= x < r@.len() ==> #[trigger] r@[x]@ == want[x],
        decreases tail.len() - j,
    {
        r.push(tail[j].clone());
        j = j + 1;
    }
    r
}

/// The tags of a typed tag text.
pub fn parse_tags(text: &str) -> (r: Vec<String>)
    ensures
        views(r@) == parsed_tags(text@),
{
    let cs = chars_of(text);
    let pieces = split_commas_exec(&cs);
    let ghost sp = split_commas(text@);
    let ghost trimmed = sp.map_values(|p: Seq<char>| trim_seq(p));
    let ghost pred = |p: Seq<char>| p.len() > 0;
    let mut r: Vec<String> = Vec::new();
    let mut i: usize = 0;
    while i < pieces.len()
        invariant
            i <= pieces@.len(),
            pieces@.len() == sp.len(),
            sp == split_commas(text@),
            trimmed == sp.map_values(|p: Seq<char>| trim_seq(p)),
            pred == (|p: Seq<char>| p.len() > 0),
            forall|x: int| 0 <= x < pieces@.len() ==> #[trigger] pieces@[x]@ == sp[x],
            views(r@) == trimmed.take(i as int).filter(pred),
        decreases pieces.len() - i,
    {
        let t = crate::text::trim_chars(&pieces[i]);
        proof {
            reveal(Seq::filter);
            assert(trimmed.take(i + 1).drop_last() =~= trimmed.take(i as int));
            assert(trimmed.take(i + 1).last() == trim_seq(sp[i as int]));
        }
        if t.len() > 0 {
            let ghost before = views(r@);
            r.push(crate::text::string_of(&t));
            assert(views(r@) =~= before.push(t@));
        }
        i = i + 1;
    }
    assert(trimmed.take(trimmed.len() as int) =~= trimmed);
    r
}

/// Publishing from the creator dialog: the card keeps its id, author, heat,
/// rating and avatar; its texts and model come from the dialog, its tags are
/// the parsed tag text; it is a published work of the user with the studio
/// subtitle, updated just now.
pub fn save_work(initial: &Character, f: &CreatorForm) -> (c: Character)
    ensures
        c.id == initial.id,
        text_fields(c) == seq![
            f.name@,
            "MY WORK // CREATOR STUDIO"@,
            initial.author@,
            initial.heat_val@,
            f.quote@,
            f.description@,
            f.personality@,
            f.scenario@,
            f.first_mes@,
            f.mes_example@,
            f.default_model@,
            "刚刚"@,
        ],
        views(c.tags@) == parsed_tags(f.tags_text@),
        c.rating_tenths == initial.rating_tenths,
        c.avatar_src is None <==> initial.avatar_src is None,
        c.avatar_src matches Some(x) ==> initial.avatar_src matches Some(y) && x@ == y@,
        c.is_user_created,
        c.is_published,
{
    let c = Character {
        id: initial.id,
        name: f.name.clone(),
        sub_title: "MY WORK // CREATOR STUDIO".to_owned(),
        author: initial.author.clone(),
        heat_val: initial.heat_val.clone(),
        rating_tenths: initial.rating_tenths,
        quote: f.quote.clone(),
        avatar_src: match &initial.avatar_src {
            Some(a) => Some(a.clone()),
            None => None,
        },
        description: f.description.clone(),
        personality: f.personality.clone(),
        scenario: f.scenario.clone(),
        first_mes: f.first_mes.clone(),
        mes_example: f.mes_example.clone(),
        tags: parse_tags(f.tags_text.as_str()),
        default_model: f.default_model.clone(),
        is_user_created: true,
        is_published: true,
        updated_at: "刚刚".to_owned(),
    };
    assert(text_fields(c) =~= seq![
        f.name@,
        "MY WORK // CREATOR STUDIO"@,
        initial.author@,
        initial.heat_val@,
        f.quote@,
        f.description@,
        f.personality@,
        f.scenario@,
        f.first_mes@,
        f.mes_example@,
        f.default_model@,
        "刚刚"@,
    ]);
    c
}

/// The emblem on the cover of a script.
pub fn cover_emblem(id: usize) -> (r: &'static str)
    ensures
        id == 1 ==> r@ == "🎬"@,
        id == 2 ==> r@ == "🌌"@,
        id == 3 ==> r@ == "🔮"@,
        id == 4 ==> r@ == "🩸"@,
        !(1 <= id <= 4) ==> r@ == "🎙️"@,
{
    match id {
        1 => "🎬",
        2 => "🌌",
        3 => "🔮",
        4 => "🩸",
        _ => "🎙️",
    }
}

/// The rank tabs of the hall and their captions.
pub fn rank_tabs() -> (r: [(&'static str, &'static str); 4])
    ensures
        r[0].0@ == "周榜"@ && r[0].1@ == "🏆 周榜"@,
        r[1].0@ == "日榜"@ && r[1].1@ == "🔥 日榜"@,
        r[2].0@ == "飙升榜"@ && r[2].1@ == "⚡ 飙升榜"@,
        r[3].0@ == "新人榜"@ && r[3].1@ == "✨ 新人榜"@,
{
    [("周榜", "🏆 周榜"), ("日榜", "🔥 日榜"), ("飙升榜", "⚡ 飙升榜"), ("新人榜", "✨ 新人榜")]
}

/// The hall search looks at the name, every tag, the description and the
/// author: a card of the tab that passes the tag filter and whose
/// lower-cased name, some lower-cased tag, lower-cased description or
/// lower-cased author holds the lower-cased search text anywhere is listed.
pub proof fn law_hall_search_covers_every_field(
    cs: Seq<Character>,
    rank: Seq<char>,
    tag: Seq<char>,
    search: Seq<char>,
    i: int,
    field: Seq<char>,
    at: int,
)
    requires
        ranked(cs, rank).contains(i),
        tag == "全部"@ || exists|j: int| 0 <= j < cs[i].tags@.len() && #[trigger] cs[i].tags@[j]@
            == tag,
        field == lowercase(cs[i].name@) || field == lowercase(cs[i].description@) || field
            == lowercase(cs[i].author@) || exists|j: int|
            0 <= j < cs[i].tags@.len() && field == lowercase(#[trigger] cs[i].tags@[j]@),
        0 <= at,
        at + lowercase(search).len() <= field.len(),
        field.subrange(at, at + lowercase(search).len()) == lowercase(search),
    ensures
        hall_listing(cs, rank, tag, search).contains(i),
{
    let q = lowercase(search);
    assert(occurs_at(field, q, at));
    assert(seq_contains(field, q));
    if field != lowercase(cs[i].name@) && field != lowercase(cs[i].description@) && field
        != lowercase(cs[i].author@) {
        let j = choose|j: int|
            0 <= j < cs[i].tags@.len() && field == lowercase(#[trigger] cs[i].tags@[j]@);
        assert(seq_contains(lowercase(cs[i].tags@[j]@), q));
    }
    if tag != "全部"@ {
        let j = choose|j: int| 0 <= j < cs[i].tags@.len() && #[trigger] cs[i].tags@[j]@ == tag;
        assert(has_tag(cs[i], tag));
    }
    assert(hall_match(cs[i], tag, q));
    let r = ranked(cs, rank);
    let pred = |k: int| hall_match(cs[k], tag, q);
    let x = choose|x: int| 0 <= x < r.len() && r[x] == i;
    r.lemma_filter_contains(pred, x);
    assert(hall_listing(cs, rank, tag, search) == r.filter(pred));
}

proof fn lemma_hall_base_lists(cs: Seq<Character>, n: int, i: int)
    requires
        0 <= i < n,
        !cs[i].is_user_created,
    ensures
        hall_base(cs, n).contains(i),
    decreases n,
{
    if i == n - 1 {
        assert(hall_base(cs, n).last() == i);
    } else {
        lemma_hall_base_lists(cs, n - 1, i);
        let prev = hall_base(cs, n - 1);
        let x = choose|x: int| 0 <= x < prev.len() && prev[x] == i;
        if !cs[n - 1].is_user_created {
            assert(hall_base(cs, n)[x] == i);
        }
    }
}

/// The weekly tab lists every library card, that is every card the user
/// did not create.
pub proof fn law_weekly_tab_lists_library(cs: Seq<Character>, i: int)
    requires
        0 <= i < cs.len(),
        !cs[i].is_user_created,
    ensures
        ranked(cs, "周榜"@).contains(i),
{
    reveal_strlit("周榜");
    reveal_strlit("日榜");
    reveal_strlit("飙升榜");
    reveal_strlit("新人榜");
    assert("周榜"@ != "日榜"@ && "周榜"@ != "飙升榜"@ && "周榜"@ != "新人榜"@) by {
        assert("周榜"@[0] != "日榜"@[0] && "周榜"@.len() != "飙升榜"@.len() && "周榜"@.len()
            != "新人榜"@.len());
    }
    lemma_hall_base_lists(cs, cs.len() as int, i);
}

} // verus!
