//! Printing through the phone: the picture is copied onto the phone, then a
//! fixed series of taps drives the phone's print dialog.
use vstd::prelude::*;
use crate::camera::texts;
use crate::text::{i32_to_decimal, signed_decimal};

verus! {

/// The phone folder that pictures are copied into.
pub fn get_phone_picture_dir() -> (d: String)
    ensures
        d@ == "mtp:/REDMAGIC 9 Pro/Internal shared storage/Pictures/szelfibox/"@,
{
    String::from_str("mtp:/REDMAGIC 9 Pro/Internal shared storage/Pictures/szelfibox/")
}

/// The arguments of the `kioclient` run that copies `img` to `to`.
pub fn copy_args(img: &str, to: &str) -> (args: Vec<String>)
    ensures
        texts(args@) == seq!["cp"@, img@, to@],
{
    let mut args: Vec<String> = Vec::new();
    args.push(String::from_str("cp"));
    args.push(String::from_str(img));
    args.push(String::from_str(to));
    assert(texts(args@) =~= seq!["cp"@, img@, to@]);
    args
}

/// The arguments of the `adb` run that taps the phone's screen at (`x`, `y`).
pub fn tap_args(x: i32, y: i32) -> (args: Vec<String>)
    ensures
        texts(args@) == seq![
            "shell"@,
            "input"@,
            "tap"@,
            signed_decimal(x as int),
            signed_decimal(y as int),
        ],
{
    let mut args: Vec<String> = Vec::new();
    args.push(String::from_str("shell"));
    args.push(String::from_str("input"));
    args.push(String::from_str("tap"));
    args.push(i32_to_decimal(x));
    args.push(i32_to_decimal(y));
    assert(texts(args@) =~= seq![
        "shell"@,
        "input"@,
        "tap"@,
        signed_decimal(x as int),
        signed_decimal(y as int),
    ]);
    args
}

/// A point to tap, how many times, and how long to wait before each tap.
#[derive(Clone, Copy, Debug, PartialEq, Eq, Structural)]
pub struct TapStep {
    pub x: i32,
    pub y: i32,
    pub repeat: u32,
    pub wait_ms: u64,
}

/// One tap, after a wait.
#[derive(Clone, Copy, Debug, PartialEq, Eq, Structural)]
pub struct Tap {
    pub x: i32,
    pub y: i32,
    pub wait_ms: u64,
}

/// The taps that a step stands for.
pub open spec fn step_taps(s: TapStep) -> Seq<Tap> {
    Seq::new(s.repeat as nat, |k: int| Tap { x: s.x, y: s.y, wait_ms: s.wait_ms })
}

/// The taps of the steps, in order.
pub open spec fn expand(steps: Seq<TapStep>) -> Seq<Tap>
    decreases steps.len(),
{
    if steps.len() == 0 {
        Seq::empty()
    } else {
        expand(steps.drop_last()) + step_taps(steps.last())
    }
}

/// The steps that print a picture from the phone's gallery: open it, open
/// the menu, press print three times, then confirm and give the printer time.
pub open spec fn print_steps_spec() -> Seq<TapStep> {
    seq![
        TapStep { x: 160, y: 700, repeat: 1, wait_ms: 500 },
        TapStep { x: 160, y: 1300, repeat: 1, wait_ms: 500 },
        TapStep { x: 1000, y: 2380, repeat: 3, wait_ms: 500 },
        TapStep { x: 300, y: 1450, repeat: 1, wait_ms: 15000 },
    ]
}

/// The steps that print a picture from the phone.
pub fn print_steps() -> (steps: Vec<TapStep>)
    ensures
        steps@ == print_steps_spec(),
{
    let steps = vec![
        TapStep { x: 160, y: 700, repeat: 1, wait_ms: 500 },
        TapStep { x: 160, y: 1300, repeat: 1, wait_ms: 500 },
        TapStep { x: 1000, y: 2380, repeat: 3, wait_ms: 500 },
        TapStep { x: 300, y: 1450, repeat: 1, wait_ms: 15000 },
    ];
    assert(steps@ =~= print_steps_spec());
    steps
}

/// The taps to perform, in order: each step's point tapped as many times as
/// it says, each tap after its step's wait.
pub fn tap_schedule(steps: &Vec<TapStep>) -> (taps: Vec<Tap>)
    ensures
        taps@ == expand(steps@),
{
    let mut taps: Vec<Tap> = Vec::new();
    let mut i: usize = 0;
    while i < steps.len()
        invariant
            i <= steps@.len(),
            taps@ == expand(steps@.take(i as int)),
        decreases steps@.len() - i,
    {
        let s = steps[i];
        let ghost before = taps@;
        let mut k: u32 = 0;
        while k < s.repeat
            invariant
                k <= s.repeat,
                taps@ == before + step_taps(s).take(k as int),
            decreases s.repeat - k,
        {
            taps.push(Tap { x: s.x, y: s.y, wait_ms: s.wait_ms });
            k = k + 1;
            assert(taps@ =~= before + step_taps(s).take(k as int));
        }
        assert(step_taps(s).take(s.repeat as int) =~= step_taps(s));
        assert(steps@.take(i + 1).drop_last() =~= steps@.take(i as int));
        assert(steps@.take(i + 1).last() == s);
        i = i + 1;
    }
    assert(steps@.take(steps@.len() as int) =~= steps@);
    taps
}

} // verus!
