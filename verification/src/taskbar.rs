//! The unread count as a taskbar overlay badge (the small icon on the app's
//! taskbar button), drawn pixel by pixel.

use vstd::prelude::*;

verus! {

/// Side of the overlay icon, in pixels (the small icon size).
pub const SIZE: usize = 16;

/// 3x5 digit glyphs, five rows for each, most significant bit on the left.
pub const DIGITS: [u8; 50] = [
    0b111, 0b101, 0b101, 0b101, 0b111,
    0b010, 0b110, 0b010, 0b010, 0b111,
    0b111, 0b001, 0b111, 0b100, 0b111,
    0b111, 0b001, 0b111, 0b001, 0b111,
    0b101, 0b101, 0b111, 0b001, 0b001,
    0b111, 0b100, 0b111, 0b001, 0b111,
    0b111, 0b100, 0b111, 0b101, 0b111,
    0b111, 0b001, 0b001, 0b001, 0b001,
    0b111, 0b101, 0b111, 0b101, 0b111,
    0b111, 0b101, 0b111, 0b001, 0b111,
];

/// The disc's color, without its alpha.
pub const RED: u32 = 0x00D3_2F2F;

/// The color of the digits.
pub const WHITE: u32 = 0xFFFF_FFFF;

/// The number that is shown for a count.
pub open spec fn shown(count: int) -> int {
    if count < 0 {
        0
    } else if count > 99 {
        99
    } else {
        count
    }
}

/// Four times the square of the distance between the middle of a pixel and
/// the middle of the icon.
pub open spec fn distance(x: int, y: int) -> int {
    (2 * x - 15) * (2 * x - 15) + (2 * y - 15) * (2 * y - 15)
}

/// Whether `alpha` is the coverage of a pixel, in 255ths and rounded. The
/// coverage is `8.5 - d` for a pixel at the distance `d`, within 0 and 1:
/// with `n` four times the square of `d`, it is `(17 - sqrt(n)) / 2`.
pub open spec fn covers(alpha: int, n: int) -> bool {
    if n <= 15 * 15 {
        alpha == 255
    } else if n >= 17 * 17 {
        alpha == 0
    } else {
        &&& 0 <= alpha <= 255
        &&& (4336 - 2 * alpha) * (4336 - 2 * alpha) >= 255 * 255 * n
        &&& (4334 - 2 * alpha) * (4334 - 2 * alpha) < 255 * 255 * n
    }
}

/// Whether a digit lights a pixel, counted from the digit's own corner: each
/// dot of its glyph is two pixels wide and high.
pub open spec fn lights(digit: int, x: int, y: int) -> bool {
    0 <= x < 6 && 0 <= y < 10 && DIGITS[digit * 5 + y / 2] & (4u8 >> ((x / 2) as u8)) != 0
}

/// Whether a pixel belongs to the digits of a count: one digit in the middle,
/// or two with a gap between them.
pub open spec fn is_lit(count: int, x: int, y: int) -> bool {
    let number = shown(count);
    if number < 10 {
        lights(number, x - 5, y - 3)
    } else {
        lights(number / 10, x - 1, y - 3) || lights(number % 10, x - 9, y - 3)
    }
}

/// Whether `pixel` is the ARGB value of the badge at a place.
pub open spec fn is_pixel(pixel: u32, count: int, x: int, y: int) -> bool {
    if is_lit(count, x, y) {
        pixel == WHITE
    } else {
        exists|alpha: int| #[trigger]
            covers(alpha, distance(x, y)) && pixel == alpha * 0x0100_0000 + RED
    }
}

/// The digits stay on the disc: no pixel that they light is off it.
pub proof fn digits_stay_on_the_disc(count: int, x: int, y: int, alpha: int)
    requires
        is_lit(count, x, y),
        covers(alpha, distance(x, y)),
    ensures
        alpha > 0,
{
    assert(1 <= x < 15 && 3 <= y < 13);
    let a = 2 * x - 15;
    let b = 2 * y - 15;
    assert(a * a <= 169) by (nonlinear_arith)
        requires
            -13 <= a <= 13,
    ;
    assert(b * b <= 81) by (nonlinear_arith)
        requires
            -9 <= b <= 9,
    ;
    assert(distance(x, y) <= 250);
    assert(255 * 255 * distance(x, y) <= 4334 * 4334) by (nonlinear_arith)
        requires
            distance(x, y) <= 250,
    ;
    if alpha == 0 {
        assert((4334 - 2 * alpha) * (4334 - 2 * alpha) == 4334 * 4334);
    }
}

/// A pixel is covered to one extent only.
pub proof fn coverage_is_unique(alpha: int, other: int, n: int)
    requires
        covers(alpha, n),
        covers(other, n),
    ensures
        alpha == other,
{
    if 15 * 15 < n < 17 * 17 && alpha != other {
        let (low, high) = if alpha < other {
            (alpha, other)
        } else {
            (other, alpha)
        };
        assert((4336 - 2 * high) * (4336 - 2 * high) <= (4334 - 2 * low) * (4334 - 2 * low))
            by (nonlinear_arith)
            requires
                0 <= low < high <= 255,
        ;
    }
}

/// Counts above 99 look like 99, and negative ones like 0.
pub proof fn counts_are_capped(count: int, pixel: u32, x: int, y: int)
    ensures
        count > 99 ==> is_pixel(pixel, count, x, y) == is_pixel(pixel, 99, x, y),
        count < 0 ==> is_pixel(pixel, count, x, y) == is_pixel(pixel, 0, x, y),
{
}

fn coverage(x: usize, y: usize) -> (alpha: u32)
    requires
        x < SIZE,
        y < SIZE,
    ensures
        covers(alpha as int, distance(x as int, y as int)),
        alpha <= 255,
{
    let a: i64 = 2 * (x as i64) - 15;
    let b: i64 = 2 * (y as i64) - 15;
    assert(a * a <= 225 && b * b <= 225) by (nonlinear_arith)
        requires
            -15 <= a <= 15,
            -15 <= b <= 15,
    ;
    assert(a * a >= 0 && b * b >= 0) by (nonlinear_arith);
    let n: i64 = a * a + b * b;
    if n <= 225 {
        return 255;
    }
    if n >= 289 {
        return 0;
    }
    let mut alpha: i64 = 255;
    assert((4334 - 2 * 255) * (4334 - 2 * 255) < 65025 * n);
    loop
        invariant
            0 <= alpha <= 255,
            225 < n < 289,
            (4334 - 2 * alpha) * (4334 - 2 * alpha) < 65025 * n,
        ensures
            0 <= alpha <= 255,
            (4334 - 2 * alpha) * (4334 - 2 * alpha) < 65025 * n,
            (4336 - 2 * alpha) * (4336 - 2 * alpha) >= 65025 * n,
        decreases alpha,
    {
        let side: i64 = 4336 - 2 * alpha;
        assert(side * side <= 4336 * 4336) by (nonlinear_arith)
            requires
                0 <= side <= 4336,
        ;
        assert(side * side >= 0) by (nonlinear_arith);
        if side * side >= 65025 * n {
            break;
        }
        assert(alpha > 0);
        alpha = alpha - 1;
    }
    alpha as u32
}

fn digit_lights(digit: usize, x: usize, y: usize) -> (lit: bool)
    requires
        digit < 10,
    ensures
        lit == lights(digit as int, x as int, y as int),
{
    if x < 6 && y < 10 {
        let row: u8 = DIGITS[digit * 5 + y / 2];
        row & (4u8 >> ((x / 2) as u8)) != 0
    } else {
        false
    }
}

fn lit(count: i32, x: usize, y: usize) -> (lit: bool)
    requires
        x < SIZE,
        y < SIZE,
    ensures
        lit == is_lit(count as int, x as int, y as int),
{
    let number: usize = if count < 0 {
        0
    } else if count > 99 {
        99
    } else {
        count as usize
    };
    if y < 3 {
        false
    } else if number < 10 {
        x >= 5 && digit_lights(number, x - 5, y - 3)
    } else {
        (x >= 1 && digit_lights(number / 10, x - 1, y - 3)) || (x >= 9 && digit_lights(
            number % 10,
            x - 9,
            y - 3,
        ))
    }
}

/// The badge as `SIZE`x`SIZE` ARGB pixels, top row first: a red disc with
/// the count (capped at 99) in white, glyphs drawn at twice their size.
pub fn badge_pixels(count: i32) -> (pixels: Vec<u32>)
    ensures
        pixels@.len() == SIZE * SIZE,
        forall|x: int, y: int|
            0 <= x < SIZE && 0 <= y < SIZE ==> is_pixel(
                #[trigger] pixels@[y * SIZE + x],
                count as int,
                x,
                y,
            ),
{
    let mut pixels: Vec<u32> = Vec::new();
    let mut y: usize = 0;
    while y < SIZE
        invariant
            y <= SIZE,
            pixels@.len() == y * SIZE,
            forall|i: int|
                0 <= i < pixels@.len() ==> is_pixel(
                    #[trigger] pixels@[i],
                    count as int,
                    i % 16,
                    i / 16,
                ),
        decreases SIZE - y,
    {
        let mut x: usize = 0;
        while x < SIZE
            invariant
                x <= SIZE,
                y < SIZE,
                pixels@.len() == y * SIZE + x,
                forall|i: int|
                    0 <= i < pixels@.len() ==> is_pixel(
                        #[trigger] pixels@[i],
                        count as int,
                        i % 16,
                        i / 16,
                    ),
            decreases SIZE - x,
        {
            let pixel: u32 = if lit(count, x, y) {
                WHITE
            } else {
                let alpha: u32 = coverage(x, y);
                alpha * 0x0100_0000 + RED
            };
            assert(is_pixel(pixel, count as int, x as int, y as int));
            assert((y * 16 + x) % 16 == x && (y * 16 + x) / 16 == y);
            pixels.push(pixel);
            x += 1;
        }
        y += 1;
    }
    assert forall|x: int, y: int| 0 <= x < SIZE && 0 <= y < SIZE implies is_pixel(
        #[trigger] pixels@[y * SIZE + x],
        count as int,
        x,
        y,
    ) by {
        assert((y * 16 + x) % 16 == x && (y * 16 + x) / 16 == y);
    }
    pixels
}

/// The digits as they are drawn, five rows for each.
pub open spec fn drawn() -> Seq<Seq<char>> {
    seq![
        seq!['#', '#', '#'],
        seq!['#', '.', '#'],
        seq!['#', '.', '#'],
        seq!['#', '.', '#'],
        seq!['#', '#', '#'],
        seq!['.', '#', '.'],
        seq!['#', '#', '.'],
        seq!['.', '#', '.'],
        seq!['.', '#', '.'],
        seq!['#', '#', '#'],
        seq!['#', '#', '#'],
        seq!['.', '.', '#'],
        seq!['#', '#', '#'],
        seq!['#', '.', '.'],
        seq!['#', '#', '#'],
        seq!['#', '#', '#'],
        seq!['.', '.', '#'],
        seq!['#', '#', '#'],
        seq!['.', '.', '#'],
        seq!['#', '#', '#'],
        seq!['#', '.', '#'],
        seq!['#', '.', '#'],
        seq!['#', '#', '#'],
        seq!['.', '.', '#'],
        seq!['.', '.', '#'],
        seq!['#', '#', '#'],
        seq!['#', '.', '.'],
        seq!['#', '#', '#'],
        seq!['.', '.', '#'],
        seq!['#', '#', '#'],
        seq!['#', '#', '#'],
        seq!['#', '.', '.'],
        seq!['#', '#', '#'],
        seq!['#', '.', '#'],
        seq!['#', '#', '#'],
        seq!['#', '#', '#'],
        seq!['.', '.', '#'],
        seq!['.', '.', '#'],
        seq!['.', '.', '#'],
        seq!['.', '.', '#'],
        seq!['#', '#', '#'],
        seq!['#', '.', '#'],
        seq!['#', '#', '#'],
        seq!['#', '.', '#'],
        seq!['#', '#', '#'],
        seq!['#', '#', '#'],
        seq!['#', '.', '#'],
        seq!['#', '#', '#'],
        seq!['.', '.', '#'],
        seq!['#', '#', '#'],
    ]
}

proof fn lemma_bits()
    ensures
        (1u8 & (4u8 >> 0u8) != 0) == false,
        (1u8 & (4u8 >> 1u8) != 0) == false,
        (1u8 & (4u8 >> 2u8) != 0) == true,
        (2u8 & (4u8 >> 0u8) != 0) == false,
        (2u8 & (4u8 >> 1u8) != 0) == true,
        (2u8 & (4u8 >> 2u8) != 0) == false,
        (4u8 & (4u8 >> 0u8) != 0) == true,
        (4u8 & (4u8 >> 1u8) != 0) == false,
        (4u8 & (4u8 >> 2u8) != 0) == false,
        (5u8 & (4u8 >> 0u8) != 0) == true,
        (5u8 & (4u8 >> 1u8) != 0) == false,
        (5u8 & (4u8 >> 2u8) != 0) == true,
        (6u8 & (4u8 >> 0u8) != 0) == true,
        (6u8 & (4u8 >> 1u8) != 0) == true,
        (6u8 & (4u8 >> 2u8) != 0) == false,
        (7u8 & (4u8 >> 0u8) != 0) == true,
        (7u8 & (4u8 >> 1u8) != 0) == true,
        (7u8 & (4u8 >> 2u8) != 0) == true,
{
    assert((1u8 & (4u8 >> 0u8) == 0)
        && (1u8 & (4u8 >> 1u8) == 0)
        && (1u8 & (4u8 >> 2u8) != 0)
        && (2u8 & (4u8 >> 0u8) == 0)
        && (2u8 & (4u8 >> 1u8) != 0)
        && (2u8 & (4u8 >> 2u8) == 0)
        && (4u8 & (4u8 >> 0u8) != 0)
        && (4u8 & (4u8 >> 1u8) == 0)
        && (4u8 & (4u8 >> 2u8) == 0)
        && (5u8 & (4u8 >> 0u8) != 0)
        && (5u8 & (4u8 >> 1u8) == 0)
        && (5u8 & (4u8 >> 2u8) != 0)
        && (6u8 & (4u8 >> 0u8) != 0)
        && (6u8 & (4u8 >> 1u8) != 0)
        && (6u8 & (4u8 >> 2u8) == 0)
        && (7u8 & (4u8 >> 0u8) != 0)
        && (7u8 & (4u8 >> 1u8) != 0)
        && (7u8 & (4u8 >> 2u8) != 0)) by (bit_vector);
}

/// A digit lights what its drawing shows, each dot two pixels wide and high.
#[verifier::rlimit(60)]
#[verifier::spinoff_prover]
pub proof fn digits_look_as_they_are_drawn(digit: int, x: int, y: int)
    requires
        0 <= digit <= 9,
    ensures
        lights(digit, x, y) <==> 0 <= x < 6 && 0 <= y < 10 && drawn()[5 * digit + y / 2][x / 2]
            == '#',
{
    lemma_bits();
    let rows = drawn();
    if 0 <= x < 6 && 0 <= y < 10 {
        let row = 5 * digit + y / 2;
        let column = x / 2;
        assert(column == 0 || column == 1 || column == 2);
        assert(0 <= row < 50);
        assert(digit * 5 + y / 2 == row);
        lemma_row(row);
    }
}

proof fn lemma_row(row: int)
    requires
        0 <= row < 50,
    ensures
        (DIGITS[row] & (4u8 >> 0u8) != 0) == (drawn()[row][0] == '#'),
        (DIGITS[row] & (4u8 >> 1u8) != 0) == (drawn()[row][1] == '#'),
        (DIGITS[row] & (4u8 >> 2u8) != 0) == (drawn()[row][2] == '#'),
{
    lemma_bits();
    let rows = drawn();
    assert(row == 0 ==> DIGITS[0] == 7u8 && rows[0] =~= seq!['#', '#', '#']);
    assert(row == 1 ==> DIGITS[1] == 5u8 && rows[1] =~= seq!['#', '.', '#']);
    assert(row == 2 ==> DIGITS[2] == 5u8 && rows[2] =~= seq!['#', '.', '#']);
    assert(row == 3 ==> DIGITS[3] == 5u8 && rows[3] =~= seq!['#', '.', '#']);
    assert(row == 4 ==> DIGITS[4] == 7u8 && rows[4] =~= seq!['#', '#', '#']);
    assert(row == 5 ==> DIGITS[5] == 2u8 && rows[5] =~= seq!['.', '#', '.']);
    assert(row == 6 ==> DIGITS[6] == 6u8 && rows[6] =~= seq!['#', '#', '.']);
    assert(row == 7 ==> DIGITS[7] == 2u8 && rows[7] =~= seq!['.', '#', '.']);
    assert(row == 8 ==> DIGITS[8] == 2u8 && rows[8] =~= seq!['.', '#', '.']);
    assert(row == 9 ==> DIGITS[9] == 7u8 && rows[9] =~= seq!['#', '#', '#']);
    assert(row == 10 ==> DIGITS[10] == 7u8 && rows[10] =~= seq!['#', '#', '#']);
    assert(row == 11 ==> DIGITS[11] == 1u8 && rows[11] =~= seq!['.', '.', '#']);
    assert(row == 12 ==> DIGITS[12] == 7u8 && rows[12] =~= seq!['#', '#', '#']);
    assert(row == 13 ==> DIGITS[13] == 4u8 && rows[13] =~= seq!['#', '.', '.']);
    assert(row == 14 ==> DIGITS[14] == 7u8 && rows[14] =~= seq!['#', '#', '#']);
    assert(row == 15 ==> DIGITS[15] == 7u8 && rows[15] =~= seq!['#', '#', '#']);
    assert(row == 16 ==> DIGITS[16] == 1u8 && rows[16] =~= seq!['.', '.', '#']);
    assert(row == 17 ==> DIGITS[17] == 7u8 && rows[17] =~= seq!['#', '#', '#']);
    assert(row == 18 ==> DIGITS[18] == 1u8 && rows[18] =~= seq!['.', '.', '#']);
    assert(row == 19 ==> DIGITS[19] == 7u8 && rows[19] =~= seq!['#', '#', '#']);
    assert(row == 20 ==> DIGITS[20] == 5u8 && rows[20] =~= seq!['#', '.', '#']);
    assert(row == 21 ==> DIGITS[21] == 5u8 && rows[21] =~= seq!['#', '.', '#']);
    assert(row == 22 ==> DIGITS[22] == 7u8 && rows[22] =~= seq!['#', '#', '#']);
    assert(row == 23 ==> DIGITS[23] == 1u8 && rows[23] =~= seq!['.', '.', '#']);
    assert(row == 24 ==> DIGITS[24] == 1u8 && rows[24] =~= seq!['.', '.', '#']);
    assert(row == 25 ==> DIGITS[25] == 7u8 && rows[25] =~= seq!['#', '#', '#']);
    assert(row == 26 ==> DIGITS[26] == 4u8 && rows[26] =~= seq!['#', '.', '.']);
    assert(row == 27 ==> DIGITS[27] == 7u8 && rows[27] =~= seq!['#', '#', '#']);
    assert(row == 28 ==> DIGITS[28] == 1u8 && rows[28] =~= seq!['.', '.', '#']);
    assert(row == 29 ==> DIGITS[29] == 7u8 && rows[29] =~= seq!['#', '#', '#']);
    assert(row == 30 ==> DIGITS[30] == 7u8 && rows[30] =~= seq!['#', '#', '#']);
    assert(row == 31 ==> DIGITS[31] == 4u8 && rows[31] =~= seq!['#', '.', '.']);
    assert(row == 32 ==> DIGITS[32] == 7u8 && rows[32] =~= seq!['#', '#', '#']);
    assert(row == 33 ==> DIGITS[33] == 5u8 && rows[33] =~= seq!['#', '.', '#']);
    assert(row == 34 ==> DIGITS[34] == 7u8 && rows[34] =~= seq!['#', '#', '#']);
    assert(row == 35 ==> DIGITS[35] == 7u8 && rows[35] =~= seq!['#', '#', '#']);
    assert(row == 36 ==> DIGITS[36] == 1u8 && rows[36] =~= seq!['.', '.', '#']);
    assert(row == 37 ==> DIGITS[37] == 1u8 && rows[37] =~= seq!['.', '.', '#']);
    assert(row == 38 ==> DIGITS[38] == 1u8 && rows[38] =~= seq!['.', '.', '#']);
    assert(row == 39 ==> DIGITS[39] == 1u8 && rows[39] =~= seq!['.', '.', '#']);
    assert(row == 40 ==> DIGITS[40] == 7u8 && rows[40] =~= seq!['#', '#', '#']);
    assert(row == 41 ==> DIGITS[41] == 5u8 && rows[41] =~= seq!['#', '.', '#']);
    assert(row == 42 ==> DIGITS[42] == 7u8 && rows[42] =~= seq!['#', '#', '#']);
    assert(row == 43 ==> DIGITS[43] == 5u8 && rows[43] =~= seq!['#', '.', '#']);
    assert(row == 44 ==> DIGITS[44] == 7u8 && rows[44] =~= seq!['#', '#', '#']);
    assert(row == 45 ==> DIGITS[45] == 7u8 && rows[45] =~= seq!['#', '#', '#']);
    assert(row == 46 ==> DIGITS[46] == 5u8 && rows[46] =~= seq!['#', '.', '#']);
    assert(row == 47 ==> DIGITS[47] == 7u8 && rows[47] =~= seq!['#', '#', '#']);
    assert(row == 48 ==> DIGITS[48] == 1u8 && rows[48] =~= seq!['.', '.', '#']);
    assert(row == 49 ==> DIGITS[49] == 7u8 && rows[49] =~= seq!['#', '#', '#']);
}

/// A count of one digit stands in the middle; one of two has its tens on the
/// left and its ones on the right; above 99 it is 99, below zero it is zero.
pub proof fn counts_show_their_digits(tens: int, ones: int, more: int, x: int, y: int)
    requires
        0 <= tens <= 9,
        0 <= ones <= 9,
        more >= 0,
    ensures
        tens == 0 ==> is_lit(ones, x, y) == lights(ones, x - 5, y - 3),
        tens > 0 ==> is_lit(10 * tens + ones, x, y) == (lights(tens, x - 1, y - 3) || lights(
            ones,
            x - 9,
            y - 3,
        )),
        is_lit(100 + more, x, y) == (lights(9, x - 1, y - 3) || lights(9, x - 9, y - 3)),
        is_lit(-more - 1, x, y) == lights(0, x - 5, y - 3),
{
}

/// The disc is red, solid within seven and a half pixels of the middle and gone
/// at eight and a half; the digits are white.
pub proof fn the_disc_is_red_and_the_digits_white(pixel: u32, count: int, x: int, y: int)
    requires
        is_pixel(pixel, count, x, y),
    ensures
        is_lit(count, x, y) ==> pixel == 0xffff_ffff,
        !is_lit(count, x, y) ==> {
            let n = (2 * x - 15) * (2 * x - 15) + (2 * y - 15) * (2 * y - 15);
            &&& n <= 225 ==> pixel == 0xffd3_2f2f
            &&& n >= 289 ==> pixel == 0x00d3_2f2f
            &&& pixel % 0x0100_0000 == 0x00d3_2f2f
        },
{
}

/// The badge is as round as pixels allow: it looks the same from the left and
/// the right, from above and below, and from corner to corner.
pub proof fn the_disc_is_round(x: int, y: int)
    ensures
        distance(15 - x, y) == distance(x, y),
        distance(x, 15 - y) == distance(x, y),
        distance(y, x) == distance(x, y),
        distance(7, 7) == 2,
        distance(x + 1, y) - distance(x, y) == 8 * (x - 7),
{
    let a = 2 * x - 15;
    let b = 2 * y - 15;
    assert(2 * (15 - x) - 15 == -a && 2 * (15 - y) - 15 == -b);
    assert((-a) * (-a) == a * a && (-b) * (-b) == b * b) by (nonlinear_arith);
    assert((-1int) * (-1int) == 1) by (nonlinear_arith);
    assert(2 * 7 - 15 == -1int);
    assert(2 * (x + 1) - 15 == a + 2);
    assert((a + 2) * (a + 2) == a * a + 4 * a + 4) by (nonlinear_arith);
}

/// A pixel farther from the middle is not covered more.
pub proof fn coverage_fades_outward(alpha: int, beta: int, n: int, m: int)
    requires
        covers(alpha, n),
        covers(beta, m),
        n <= m,
    ensures
        beta <= alpha,
        0 <= beta && alpha <= 255,
{
    if 225 < n && m < 289 && beta > alpha {
        assert((4336 - 2 * beta) * (4336 - 2 * beta) <= (4334 - 2 * alpha) * (4334 - 2 * alpha))
            by (nonlinear_arith)
            requires
                0 <= alpha < beta <= 255,
        ;
        assert(255 * 255 * n <= 255 * 255 * m) by (nonlinear_arith)
            requires
                n <= m,
        ;
    }
}

} // verus!
