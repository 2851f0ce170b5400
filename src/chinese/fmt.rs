//! Chinese names of calendar terms.

use vstd::prelude::*;

verus! {

/// Heavenly stem of a sexagenary number `n`, indexed by `n % 10` (0 is 癸).
pub open spec fn heavenly_stem(i: int) -> char {
    if i == 0 {
        '癸'
    } else if i == 1 {
        '甲'
    } else if i == 2 {
        '乙'
    } else if i == 3 {
        '丙'
    } else if i == 4 {
        '丁'
    } else if i == 5 {
        '戊'
    } else if i == 6 {
        '己'
    } else if i == 7 {
        '庚'
    } else if i == 8 {
        '辛'
    } else {
        '壬'
    }
}

/// Earthly branch of a sexagenary number `n`, indexed by `n % 12` (0 is 亥).
pub open spec fn earthly_branch(i: int) -> char {
    if i == 0 {
        '亥'
    } else if i == 1 {
        '子'
    } else if i == 2 {
        '丑'
    } else if i == 3 {
        '寅'
    } else if i == 4 {
        '卯'
    } else if i == 5 {
        '辰'
    } else if i == 6 {
        '巳'
    } else if i == 7 {
        '午'
    } else if i == 8 {
        '未'
    } else if i == 9 {
        '申'
    } else if i == 10 {
        '酉'
    } else {
        '戌'
    }
}

/// Chinese numeral for `1..=9`; index 0 gives 十 (ten).
pub open spec fn chinese_digit(i: int) -> char {
    if i == 0 {
        '十'
    } else if i == 1 {
        '一'
    } else if i == 2 {
        '二'
    } else if i == 3 {
        '三'
    } else if i == 4 {
        '四'
    } else if i == 5 {
        '五'
    } else if i == 6 {
        '六'
    } else if i == 7 {
        '七'
    } else if i == 8 {
        '八'
    } else {
        '九'
    }
}

/// Name of solar term `i` (`0..24`; 1 is 立春, 23 is 小寒 and 0 is 大寒).
pub open spec fn solar_term_name(i: int) -> Seq<char> {
    if i == 0 {
        seq!['大', '寒']
    } else if i == 1 {
        seq!['立', '春']
    } else if i == 2 {
        seq!['雨', '水']
    } else if i == 3 {
        seq!['驚', '蟄']
    } else if i == 4 {
        seq!['春', '分']
    } else if i == 5 {
        seq!['清', '明']
    } else if i == 6 {
        seq!['穀', '雨']
    } else if i == 7 {
        seq!['立', '夏']
    } else if i == 8 {
        seq!['小', '滿']
    } else if i == 9 {
        seq!['芒', '種']
    } else if i == 10 {
        seq!['夏', '至']
    } else if i == 11 {
        seq!['小', '暑']
    } else if i == 12 {
        seq!['大', '暑']
    } else if i == 13 {
        seq!['立', '秋']
    } else if i == 14 {
        seq!['處', '暑']
    } else if i == 15 {
        seq!['白', '露']
    } else if i == 16 {
        seq!['秋', '分']
    } else if i == 17 {
        seq!['寒', '露']
    } else if i == 18 {
        seq!['霜', '降']
    } else if i == 19 {
        seq!['立', '冬']
    } else if i == 20 {
        seq!['小', '雪']
    } else if i == 21 {
        seq!['大', '雪']
    } else if i == 22 {
        seq!['冬', '至']
    } else {
        seq!['小', '寒']
    }
}

/// Character that names month `n` (`1..=12`): 正 for the first, 冬 and 臘 for the
/// eleventh and twelfth.
pub open spec fn month_char(n: int) -> char {
    if n == 1 {
        '正'
    } else if n == 11 {
        '冬'
    } else if n == 12 {
        '臘'
    } else {
        chinese_digit(n % 10)
    }
}

/// Name of a month (with 月), 閏 before it for a leap month.
pub open spec fn month_name(leap: bool, n: int) -> Seq<char> {
    (if leap { seq!['閏'] } else { Seq::empty() }) + seq![month_char(n), '月']
}

/// First character of the name of day `d` (`1..=30`).
pub open spec fn day_prefix(d: int) -> char {
    if d <= 10 {
        '初'
    } else if d <= 19 {
        '十'
    } else if d == 20 {
        '二'
    } else if d <= 29 {
        '廿'
    } else {
        '三'
    }
}

/// Name of day `d` (`1..=30`) of a month: 初一 to 初十, 十一 to 十九, 二十, 廿一 to
/// 廿九, 三十.
pub open spec fn day_name(d: int) -> Seq<char> {
    seq![day_prefix(d), chinese_digit(d % 10)]
}

/// Text of `heavenly_stem(i)`.
fn stem_text(i: u32) -> (r: &'static str)
    requires
        i < 10,
    ensures
        r@ == seq![heavenly_stem(i as int)],
{
    proof {
        reveal_strlit("癸");
        reveal_strlit("甲");
        reveal_strlit("乙");
        reveal_strlit("丙");
        reveal_strlit("丁");
        reveal_strlit("戊");
        reveal_strlit("己");
        reveal_strlit("庚");
        reveal_strlit("辛");
        reveal_strlit("壬");
    }
    let r = if i == 0 {
        "癸"
    } else if i == 1 {
        "甲"
    } else if i == 2 {
        "乙"
    } else if i == 3 {
        "丙"
    } else if i == 4 {
        "丁"
    } else if i == 5 {
        "戊"
    } else if i == 6 {
        "己"
    } else if i == 7 {
        "庚"
    } else if i == 8 {
        "辛"
    } else {
        "壬"
    };
    assert(r@ =~= seq![heavenly_stem(i as int)]);
    r
}

/// Text of `earthly_branch(i)`.
fn branch_text(i: u32) -> (r: &'static str)
    requires
        i < 12,
    ensures
        r@ == seq![earthly_branch(i as int)],
{
    proof {
        reveal_strlit("亥");
        reveal_strlit("子");
        reveal_strlit("丑");
        reveal_strlit("寅");
        reveal_strlit("卯");
        reveal_strlit("辰");
        reveal_strlit("巳");
        reveal_strlit("午");
        reveal_strlit("未");
        reveal_strlit("申");
        reveal_strlit("酉");
        reveal_strlit("戌");
    }
    let r = if i == 0 {
        "亥"
    } else if i == 1 {
        "子"
    } else if i == 2 {
        "丑"
    } else if i == 3 {
        "寅"
    } else if i == 4 {
        "卯"
    } else if i == 5 {
        "辰"
    } else if i == 6 {
        "巳"
    } else if i == 7 {
        "午"
    } else if i == 8 {
        "未"
    } else if i == 9 {
        "申"
    } else if i == 10 {
        "酉"
    } else {
        "戌"
    };
    assert(r@ =~= seq![earthly_branch(i as int)]);
    r
}

/// Text of `chinese_digit(i)`.
fn digit_text(i: u32) -> (r: &'static str)
    requires
        i < 10,
    ensures
        r@ == seq![chinese_digit(i as int)],
{
    proof {
        reveal_strlit("十");
        reveal_strlit("一");
        reveal_strlit("二");
        reveal_strlit("三");
        reveal_strlit("四");
        reveal_strlit("五");
        reveal_strlit("六");
        reveal_strlit("七");
        reveal_strlit("八");
        reveal_strlit("九");
    }
    let r = if i == 0 {
        "十"
    } else if i == 1 {
        "一"
    } else if i == 2 {
        "二"
    } else if i == 3 {
        "三"
    } else if i == 4 {
        "四"
    } else if i == 5 {
        "五"
    } else if i == 6 {
        "六"
    } else if i == 7 {
        "七"
    } else if i == 8 {
        "八"
    } else {
        "九"
    };
    assert(r@ =~= seq![chinese_digit(i as int)]);
    r
}

/// Text of `solar_term_name(i)`.
fn solar_term_text(i: u32) -> (r: &'static str)
    requires
        i < 24,
    ensures
        r@ == solar_term_name(i as int),
{
    proof {
        reveal_strlit("大寒");
        reveal_strlit("立春");
        reveal_strlit("雨水");
        reveal_strlit("驚蟄");
        reveal_strlit("春分");
        reveal_strlit("清明");
        reveal_strlit("穀雨");
        reveal_strlit("立夏");
        reveal_strlit("小滿");
        reveal_strlit("芒種");
        reveal_strlit("夏至");
        reveal_strlit("小暑");
        reveal_strlit("大暑");
        reveal_strlit("立秋");
        reveal_strlit("處暑");
        reveal_strlit("白露");
        reveal_strlit("秋分");
        reveal_strlit("寒露");
        reveal_strlit("霜降");
        reveal_strlit("立冬");
        reveal_strlit("小雪");
        reveal_strlit("大雪");
        reveal_strlit("冬至");
        reveal_strlit("小寒");
    }
    let r = if i == 0 {
        "大寒"
    } else if i == 1 {
        "立春"
    } else if i == 2 {
        "雨水"
    } else if i == 3 {
        "驚蟄"
    } else if i == 4 {
        "春分"
    } else if i == 5 {
        "清明"
    } else if i == 6 {
        "穀雨"
    } else if i == 7 {
        "立夏"
    } else if i == 8 {
        "小滿"
    } else if i == 9 {
        "芒種"
    } else if i == 10 {
        "夏至"
    } else if i == 11 {
        "小暑"
    } else if i == 12 {
        "大暑"
    } else if i == 13 {
        "立秋"
    } else if i == 14 {
        "處暑"
    } else if i == 15 {
        "白露"
    } else if i == 16 {
        "秋分"
    } else if i == 17 {
        "寒露"
    } else if i == 18 {
        "霜降"
    } else if i == 19 {
        "立冬"
    } else if i == 20 {
        "小雪"
    } else if i == 21 {
        "大雪"
    } else if i == 22 {
        "冬至"
    } else {
        "小寒"
    };
    assert(r@ =~= solar_term_name(i as int));
    r
}

/// Name of a sexagenary number (1 is 甲子, 60 is 癸亥).
pub fn sexagenary(num: u32) -> (r: String)
    ensures
        r@ == seq![heavenly_stem((num % 10) as int), earthly_branch((num % 12) as int)],
{
    let mut s = String::from_str(stem_text(num % 10));
    s.append(branch_text(num % 12));
    assert(s@ =~= seq![heavenly_stem((num % 10) as int), earthly_branch((num % 12) as int)]);
    s
}

/// Name of a month, with 月: 冬月 and 臘月 for the eleventh and twelfth, 閏 before
/// a leap month.
pub fn month(m: super::Month) -> (r: String)
    requires
        1 <= super::month_number(m) <= 12,
    ensures
        r@ == month_name(m is Leap, super::month_number(m) as int),
{
    let mut s = String::new();
    proof {
        reveal_strlit("閏");
        reveal_strlit("正");
        reveal_strlit("冬");
        reveal_strlit("臘");
        reveal_strlit("月");
    }
    if m.is_leap() {
        s.append("閏");
    }
    let num = m.num();
    if num == 1 {
        s.append("正");
    } else if num == 11 {
        s.append("冬");
    } else if num == 12 {
        s.append("臘");
    } else {
        s.append(digit_text(num % 10));
    }
    s.append("月");
    assert(s@ =~= month_name(m is Leap, super::month_number(m) as int));
    s
}

/// Name of day `d` of a month: 初一 to 初十, 十一 to 十九, 二十, 廿一 to 廿九, 三十.
pub fn day(d: u32) -> (r: String)
    requires
        1 <= d <= 30,
    ensures
        r@ == day_name(d as int),
{
    proof {
        reveal_strlit("初");
        reveal_strlit("十");
        reveal_strlit("二");
        reveal_strlit("廿");
        reveal_strlit("三");
    }
    let prefix = if d <= 10 {
        "初"
    } else if d <= 19 {
        "十"
    } else if d == 20 {
        "二"
    } else if d <= 29 {
        "廿"
    } else {
        "三"
    };
    let mut s = String::from_str(prefix);
    s.append(digit_text(d % 10));
    assert(s@ =~= day_name(d as int));
    s
}

/// Name of solar term `term`, counted modulo 24: 1 is 立春, 24 (or 0) is 大寒.
pub fn solar_term(term: u32) -> (r: &'static str)
    ensures
        r@ == solar_term_name((term % 24) as int),
{
    solar_term_text(term % 24)
}

} // verus!
