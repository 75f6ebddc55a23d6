use vstd::prelude::*;

verus! {

/// Site-wide values shown on every page.
pub struct AppContext {
    pub title: String,
    pub tag: String,
}

impl AppContext {
    pub fn new(title: String, tag: String) -> (r: AppContext)
        ensures
            r == (AppContext { title, tag }),
    {
        AppContext { title, tag }
    }
}

pub struct HomeContext {
    pub app: AppContext,
    pub path: String,
}

impl HomeContext {
    pub fn new(app: AppContext, path: String) -> (r: HomeContext)
        ensures
            r == (HomeContext { app, path }),
    {
        HomeContext { app, path }
    }
}

pub open spec fn digit_char(d: nat) -> char {
    ((d as u8) + 48u8) as char
}

/// Decimal digits of `n`, most significant first, without leading zeros.
pub open spec fn digits_of(n: nat) -> Seq<char>
    decreases n,
{
    if n < 10 {
        seq![digit_char(n)]
    } else {
        digits_of(n / 10).push(digit_char(n % 10))
    }
}

/// Decimal text of `n`, with a leading minus sign when negative.
pub open spec fn decimal(n: int) -> Seq<char> {
    if n < 0 {
        seq!['-'] + digits_of((-n) as nat)
    } else {
        digits_of(n as nat)
    }
}

fn digit_str(d: u64) -> (r: &'static str)
    requires
        d < 10,
    ensures
        r@ == seq![digit_char(d as nat)],
{
    proof {
        reveal_strlit("0");
        reveal_strlit("1");
        reveal_strlit("2");
        reveal_strlit("3");
        reveal_strlit("4");
        reveal_strlit("5");
        reveal_strlit("6");
        reveal_strlit("7");
        reveal_strlit("8");
        reveal_strlit("9");
    }
    if d == 0 {
        "0"
    } else if d == 1 {
        "1"
    } else if d == 2 {
        "2"
    } else if d == 3 {
        "3"
    } else if d == 4 {
        "4"
    } else if d == 5 {
        "5"
    } else if d == 6 {
        "6"
    } else if d == 7 {
        "7"
    } else if d == 8 {
        "8"
    } else {
        "9"
    }
}

/// Appends the decimal text of `n` to `s`.
pub fn append_decimal(s: &mut String, n: i32)
    ensures
        final(s)@ == old(s)@ + decimal(n as int),
{
    if n < 0 {
        proof {
            reveal_strlit("-");
        }
        s.append("-");
    }
    let magnitude: u64 = if n < 0 {
        (0 - (n as i64)) as u64
    } else {
        n as u64
    };
    let ghost start = s@;
    let mut digits: Vec<u64> = Vec::new();
    let mut m: u64 = magnitude;
    while m >= 10
        invariant
            digits_of(magnitude as nat) == digits_of(m as nat) + digits@.map_values(
                |d: u64| digit_char(d as nat),
            ),
            forall|k: int| 0 <= k < digits@.len() ==> digits@[k] < 10,
        decreases m,
    {
        let ghost before = digits@;
        digits.insert(0, m % 10);
        assert(digits_of(m as nat) == digits_of((m / 10) as nat).push(digit_char((m % 10) as nat)));
        assert(digits@.map_values(|d: u64| digit_char(d as nat)) =~= seq![digit_char((m % 10) as nat)]
            + before.map_values(|d: u64| digit_char(d as nat)));
        assert(digits_of((m / 10) as nat).push(digit_char((m % 10) as nat)) + before.map_values(
            |d: u64| digit_char(d as nat),
        ) =~= digits_of((m / 10) as nat) + digits@.map_values(|d: u64| digit_char(d as nat)));
        m = m / 10;
    }
    digits.insert(0, m);
    assert(digits@.map_values(|d: u64| digit_char(d as nat)) =~= digits_of(magnitude as nat));
    let mut i: usize = 0;
    while i < digits.len()
        invariant
            i <= digits@.len(),
            forall|k: int| 0 <= k < digits@.len() ==> digits@[k] < 10,
            s@ == start + digits@.take(i as int).map_values(|d: u64| digit_char(d as nat)),
        decreases digits@.len() - i,
    {
        s.append(digit_str(digits[i]));
        i = i + 1;
        assert(digits@.take(i as int).map_values(|d: u64| digit_char(d as nat)) =~= digits@.take(
            (i - 1) as int,
        ).map_values(|d: u64| digit_char(d as nat)).push(digit_char(digits@[i - 1] as nat)));
    }
    assert(digits@.take(i as int) =~= digits@);
    assert(s@ =~= old(s)@ + decimal(n as int));
}

/// Display name of a difficulty level; unknown levels have an empty name.
pub open spec fn level_name(level: i32) -> Seq<char> {
    if level == 1 {
        seq!['E', 'a', 's', 'y']
    } else if level == 2 {
        seq!['M', 'e', 'd', 'i', 'u', 'm']
    } else if level == 3 {
        seq!['H', 'a', 'r', 'd']
    } else {
        seq![]
    }
}

/// `base` followed by the decimal text of `id`.
fn link_to(base: &str, id: i32) -> (r: String)
    ensures
        r@ == base@ + decimal(id as int),
{
    let mut s = String::from_str(base);
    append_decimal(&mut s, id);
    s
}

pub open spec fn leetcode_base() -> Seq<char> {
    seq!['/', 'l', 'e', 'e', 't', 'c', 'o', 'd', 'e', '/']
}

pub open spec fn adventofcode_base() -> Seq<char> {
    seq!['/', 'a', 'd', 'v', 'e', 'n', 't', 'o', 'f', 'c', 'o', 'd', 'e', '/']
}

pub open spec fn google_base() -> Seq<char> {
    seq!['/', 'g', 'o', 'o', 'g', 'l', 'e', '/']
}

/// One line of the leetcode index.
pub struct LeetcodeIndexRow {
    pub id: i32,
    pub title: String,
    pub level: i32,
}

impl LeetcodeIndexRow {
    pub fn level_str(&self) -> (r: &'static str)
        ensures
            r@ == level_name(self.level),
    {
        proof {
            reveal_strlit("Easy");
            reveal_strlit("Medium");
            reveal_strlit("Hard");
            reveal_strlit("");
        }
        if self.level == 1 {
            "Easy"
        } else if self.level == 2 {
            "Medium"
        } else if self.level == 3 {
            "Hard"
        } else {
            ""
        }
    }

    pub fn href(&self) -> (r: String)
        ensures
            r@ == leetcode_base() + decimal(self.id as int),
    {
        proof {
            reveal_strlit("/leetcode/");
        }
        let r = link_to("/leetcode/", self.id);
        assert("/leetcode/"@ =~= leetcode_base());
        r
    }
}

pub struct LeetcodeIndexContext {
    pub app: AppContext,
    pub path: String,
    pub rows: Vec<LeetcodeIndexRow>,
}

impl LeetcodeIndexContext {
    pub fn new(app: AppContext, path: String, rows: Vec<LeetcodeIndexRow>) -> (r: LeetcodeIndexContext)
        ensures
            r == (LeetcodeIndexContext { app, path, rows }),
    {
        LeetcodeIndexContext { app, path, rows }
    }
}

/// One line of the Advent of Code index.
pub struct AdventOfCodeIndexRow {
    pub id: i32,
    pub year: i32,
    pub day: i32,
    pub title: String,
}

impl AdventOfCodeIndexRow {
    pub fn href(&self) -> (r: String)
        ensures
            r@ == adventofcode_base() + decimal(self.id as int),
    {
        proof {
            reveal_strlit("/adventofcode/");
        }
        let r = link_to("/adventofcode/", self.id);
        assert("/adventofcode/"@ =~= adventofcode_base());
        r
    }
}

pub struct AdventOfCodeIndexContext {
    pub app: AppContext,
    pub path: String,
    pub rows: Vec<AdventOfCodeIndexRow>,
}

impl AdventOfCodeIndexContext {
    pub fn new(app: AppContext, path: String, rows: Vec<AdventOfCodeIndexRow>) -> (r:
        AdventOfCodeIndexContext)
        ensures
            r == (AdventOfCodeIndexContext { app, path, rows }),
    {
        AdventOfCodeIndexContext { app, path, rows }
    }
}

/// One line of the Google contest index.
pub struct GoogleIndexRow {
    pub id: i32,
    pub division: i32,
    pub year: i32,
    pub round: i32,
    pub title: String,
}

impl GoogleIndexRow {
    pub fn href(&self) -> (r: String)
        ensures
            r@ == google_base() + decimal(self.id as int),
    {
        proof {
            reveal_strlit("/google/");
        }
        let r = link_to("/google/", self.id);
        assert("/google/"@ =~= google_base());
        r
    }

    pub fn duplicate(&self) -> (r: GoogleIndexRow)
        ensures
            r == *self,
    {
        GoogleIndexRow {
            id: self.id,
            division: self.division,
            year: self.year,
            round: self.round,
            title: self.title.clone(),
        }
    }
}

pub struct GoogleIndexContext {
    pub app: AppContext,
    pub path: String,
    pub codejam_rows: Vec<GoogleIndexRow>,
    pub kickstart_rows: Vec<GoogleIndexRow>,
}

impl GoogleIndexContext {
    pub fn new(
        app: AppContext,
        path: String,
        codejam_rows: Vec<GoogleIndexRow>,
        kickstart_rows: Vec<GoogleIndexRow>,
    ) -> (r: GoogleIndexContext)
        ensures
            r == (GoogleIndexContext { app, path, codejam_rows, kickstart_rows }),
    {
        GoogleIndexContext { app, path, codejam_rows, kickstart_rows }
    }
}

pub struct RobotsContext {}

impl RobotsContext {
    pub fn new() -> (r: RobotsContext)
        ensures
            r == (RobotsContext {}),
    {
        RobotsContext {}
    }
}

} // verus!
