use vstd::prelude::*;

verus! {

/// One full amplitude in Q30 fixed point: sample values are integers counted
/// in units of 1/2^30.
pub const ONE_Q30: i32 = 0x4000_0000;

/// Phase units in one full cycle: phases live in [0, TURN), and TURN stands
/// for 2*pi radians.
pub const TURN: u64 = 0x1_0000_0000;

/// Half a cycle in phase units (pi radians).
pub const HALF_TURN: u64 = 0x8000_0000;

/// Largest magnitude one voice's wave can reach: the harmonic weights
/// 1 + 1/2 + 1/4 + 1/8 = 1.875, in Q30.
pub const WAVE_PEAK: i64 = 0x7800_0000;

/// Magnitude of the wave at a phase in [0, TURN): on each half-cycle it is
/// the parabola through the half-cycle's endpoints, peaking at ONE_Q30 a
/// quarter-cycle in. The parabola is the fixed-point wave shape this library
/// synthesizes in place of a transcendental sine.
pub open spec fn sine_mag(u: int) -> int {
    if u <= HALF_TURN {
        (u * (HALF_TURN - u)) / (ONE_Q30 as int)
    } else {
        ((u - HALF_TURN) * (TURN - u)) / (ONE_Q30 as int)
    }
}

/// Signed wave value: positive arch on the first half-cycle, its mirror
/// image below zero on the second.
pub open spec fn sine_at(u: int) -> int {
    if u <= HALF_TURN {
        sine_mag(u)
    } else {
        -sine_mag(u)
    }
}

pub proof fn lemma_sine_mag_bounds(u: int)
    requires
        0 <= u < TURN,
    ensures
        0 <= sine_mag(u) <= ONE_Q30,
        u <= HALF_TURN ==> 0 <= u * (HALF_TURN - u) <= 0x1000_0000_0000_0000,
        u > HALF_TURN ==> 0 <= (u - HALF_TURN) * (TURN - u) <= 0x1000_0000_0000_0000,
{
    if u <= HALF_TURN {
        assert(0 <= u * (0x8000_0000 - u) <= 0x1000_0000_0000_0000) by (nonlinear_arith)
            requires
                0 <= u <= 0x8000_0000,
        ;
    } else {
        assert(0 <= (u - 0x8000_0000) * (0x1_0000_0000 - u) <= 0x1000_0000_0000_0000)
            by (nonlinear_arith)
            requires
                0x8000_0000 < u < 0x1_0000_0000,
        ;
    }
}

/// Wave magnitude at a phase, in Q30.
pub fn sine_mag_q30(u: u64) -> (r: u32)
    requires
        u < TURN,
    ensures
        r == sine_mag(u as int),
        r <= ONE_Q30,
{
    proof {
        lemma_sine_mag_bounds(u as int);
    }
    if u <= HALF_TURN {
        ((u * (HALF_TURN - u)) / 0x4000_0000) as u32
    } else {
        (((u - HALF_TURN) * (TURN - u)) / 0x4000_0000) as u32
    }
}

/// One harmonic's contribution at a base phase: the wave at k times the
/// phase (folded back into one cycle), at 1/d of full level.
pub open spec fn harmonic_term(ph: int, k: int, d: int) -> int {
    let hp = (k * ph) % (TURN as int);
    if hp <= HALF_TURN {
        sine_mag(hp) / d
    } else {
        -(sine_mag(hp) / d)
    }
}

/// One voice's waveform sample at a phase: the fundamental plus three
/// overtones at half, quarter and eighth level.
pub open spec fn voice_wave_at(ph: int) -> int {
    harmonic_term(ph, 1, 1) + harmonic_term(ph, 2, 2) + harmonic_term(ph, 3, 4) + harmonic_term(
        ph,
        4,
        8,
    )
}

/// One voice's waveform sample at a phase.
pub fn voice_wave(ph: u64) -> (r: i64)
    requires
        ph < TURN,
    ensures
        r == voice_wave_at(ph as int),
        -WAVE_PEAK <= r <= WAVE_PEAK,
{
    let m1 = sine_mag_q30(ph);
    let s1: i64 = if ph <= HALF_TURN {
        m1 as i64
    } else {
        -(m1 as i64)
    };
    let hp2 = (2 * ph) % TURN;
    let m2 = sine_mag_q30(hp2) / 2;
    let s2: i64 = if hp2 <= HALF_TURN {
        m2 as i64
    } else {
        -(m2 as i64)
    };
    let hp3 = (3 * ph) % TURN;
    let m3 = sine_mag_q30(hp3) / 4;
    let s3: i64 = if hp3 <= HALF_TURN {
        m3 as i64
    } else {
        -(m3 as i64)
    };
    let hp4 = (4 * ph) % TURN;
    let m4 = sine_mag_q30(hp4) / 8;
    let s4: i64 = if hp4 <= HALF_TURN {
        m4 as i64
    } else {
        -(m4 as i64)
    };
    assert((1 * ph) % (TURN as int) == ph as int);
    s1 + s2 + s3 + s4
}

} // verus!
