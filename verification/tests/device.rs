//! Runs sessions on a device that is simulated on the host, and compares the results with those of
//! the curve library.

use std::collections::HashMap;

use ark_bn254::{
    Fr as ArkFr, G1Affine as ArkG1Affine, G1Projective as ArkG1, G2Affine as ArkG2Affine,
    G2Projective as ArkG2,
};
use ark_ec::{AffineRepr, CurveGroup, PrimeGroup, VariableBaseMSM};
use ark_ff::{AdditiveGroup, BigInteger, Field, PrimeField as ArkPrimeField};
use ark_std::UniformRand;

use ec_gpu_gen::combined_ops::{CombinedPolyOps, Either};
use ec_gpu_gen::curve::{
    G1Affine, G1AffineM, G1Projective, G2Affine, G2AffineM, G2Projective, GpuAffine,
};
use ec_gpu_gen::dispatch::all_listed;
use ec_gpu_gen::error::EcError;
use ec_gpu_gen::field::{Fq, Fq2, Fr};
use ec_gpu_gen::fused_commit::FusedPolyCommit;
use ec_gpu_gen::fused_open::{FusedOpen, Phase3Input};
use ec_gpu_gen::multiexp_kernel::MultiexpKernel;
use ec_gpu_gen::opencl::{Device, PciId, Program, Vendor};
use ec_gpu_gen::poly_ops::{FixVars, SinglePolyOpsKernel};
use ec_gpu_gen::scalar_mul::{build_table, TableShape};
use ec_gpu_gen::session::{Arg, Command, Elem, HostData, KernelId, Session};
use ec_gpu_gen::single_multiexp::SingleMultiexpKernel;
use ec_gpu_gen::sorted_multiexp::MsmStage;

fn fr(x: ArkFr) -> Fr {
    Fr::from_mont_limbs(x.0 .0).unwrap()
}

fn ark_fr(x: &Fr) -> ArkFr {
    ArkFr::new_unchecked(ark_ff::BigInt::new(x.mont_limbs()))
}

fn frs(xs: &[ArkFr]) -> Vec<Fr> {
    xs.iter().map(|x| fr(*x)).collect()
}

fn ark_frs(xs: &[Fr]) -> Vec<ArkFr> {
    xs.iter().map(ark_fr).collect()
}

fn fq(x: ark_bn254::Fq) -> Fq {
    Fq::from_mont_limbs(x.0 .0).unwrap()
}

fn affine(p: &ArkG1Affine) -> G1Affine {
    G1Affine { x: fq(p.x), y: fq(p.y), infinity: p.infinity }
}

fn group(p: &ArkG1) -> G1Projective {
    G1Projective { x: fq(p.x), y: fq(p.y), z: fq(p.z) }
}

fn fq2(x: ark_bn254::Fq2) -> Fq2 {
    Fq2 { c0: fq(x.c0), c1: fq(x.c1) }
}

fn ark_fq2(x: &Fq2) -> ark_bn254::Fq2 {
    ark_bn254::Fq2::new(ark_fq(&x.c0), ark_fq(&x.c1))
}

fn affine2(p: &ArkG2Affine) -> G2Affine {
    G2Affine { x: fq2(p.x), y: fq2(p.y), infinity: p.infinity }
}

fn group2(p: &ArkG2) -> G2Projective {
    G2Projective { x: fq2(p.x), y: fq2(p.y), z: fq2(p.z) }
}

fn ark_group2(p: &G2Projective) -> ArkG2 {
    ArkG2::new_unchecked(ark_fq2(&p.x), ark_fq2(&p.y), ark_fq2(&p.z))
}

fn ark_fq(x: &Fq) -> ark_bn254::Fq {
    ark_bn254::Fq::new_unchecked(ark_ff::BigInt::new(x.mont_limbs()))
}

fn ark_group(p: &G1Projective) -> ArkG1 {
    ArkG1::new_unchecked(ark_fq(&p.x), ark_fq(&p.y), ark_fq(&p.z))
}

fn ark_affine(p: &G1Affine) -> ArkG1Affine {
    if p.infinity {
        ArkG1Affine::identity()
    } else {
        ArkG1Affine::new_unchecked(ark_fq(&p.x), ark_fq(&p.y))
    }
}

fn limbs_of(bytes: &[u8; 32]) -> [u64; 4] {
    let mut limbs = [0u64; 4];
    for (i, b) in bytes.iter().enumerate() {
        limbs[i / 8] |= (*b as u64) << (8 * (i % 8));
    }
    limbs
}

/// A curve that the simulated device can compute on.
trait SimCurve {
    type Ark: CurveGroup<ScalarField = ArkFr>;
    type Group: Clone;

    fn group(p: &Self::Ark) -> Self::Group;
}

/// The affine points of a curve.
type Affine<C> = <<C as SimCurve>::Ark as CurveGroup>::Affine;

/// The first group.
struct OnG1;

impl SimCurve for OnG1 {
    type Ark = ArkG1;
    type Group = G1Projective;

    fn group(p: &ArkG1) -> G1Projective {
        group(p)
    }
}

/// The second group.
struct OnG2;

impl SimCurve for OnG2 {
    type Ark = ArkG2;
    type Group = G2Projective;

    fn group(p: &ArkG2) -> G2Projective {
        group2(p)
    }
}

/// The point that a representation on the device stands for.
fn from_repr(r: &G1AffineM) -> ArkG1Affine {
    if r.x == [0u8; 32] && r.y == [0u8; 32] {
        return ArkG1Affine::identity();
    }
    ArkG1Affine::new_unchecked(
        ark_bn254::Fq::new_unchecked(ark_ff::BigInt::new(limbs_of(&r.x))),
        ark_bn254::Fq::new_unchecked(ark_ff::BigInt::new(limbs_of(&r.y))),
    )
}

/// The point of the second group that a representation on the device stands for.
fn from_repr2(r: &G2AffineM) -> ArkG2Affine {
    if r.x == [0u8; 64] && r.y == [0u8; 64] {
        return ArkG2Affine::identity();
    }
    let half = |b: &[u8; 64], i: usize| {
        let mut bytes = [0u8; 32];
        bytes.copy_from_slice(&b[32 * i..32 * (i + 1)]);
        ark_bn254::Fq::new_unchecked(ark_ff::BigInt::new(limbs_of(&bytes)))
    };
    ArkG2Affine::new_unchecked(
        ark_bn254::Fq2::new(half(&r.x, 0), half(&r.x, 1)),
        ark_bn254::Fq2::new(half(&r.y, 0), half(&r.y, 1)),
    )
}

/// What a base stands for, for every kind of base that sessions have.
trait SimBase<C: SimCurve> {
    fn point(&self) -> Affine<C>;
}

impl SimBase<OnG1> for G1AffineM {
    fn point(&self) -> ArkG1Affine {
        from_repr(self)
    }
}

impl SimBase<OnG2> for G2AffineM {
    fn point(&self) -> ArkG2Affine {
        from_repr2(self)
    }
}

impl<C: SimCurve> SimBase<C> for () {
    fn point(&self) -> Affine<C> {
        Affine::<C>::zero()
    }
}

enum Buf<C: SimCurve> {
    Bytes(Vec<u8>),
    Digits(Vec<i64>),
    Words(Vec<u32>),
    Exponents(Vec<[u8; 32]>),
    Scalars(Vec<ArkFr>),
    Bases(Vec<Affine<C>>),
    Points(Vec<C::Ark>),
}

/// What a session hands to the host.
enum Out<C: SimCurve> {
    Bytes(Vec<u8>),
    Words(Vec<u32>),
    Scalars(Vec<Fr>),
    Points(Vec<C::Group>),
}

/// A device.
struct SimDevice<C: SimCurve> {
    buffers: HashMap<usize, Buf<C>>,
    done: usize,
}

/// A device for the first group.
type Sim = SimDevice<OnG1>;

fn standard(x: &ArkFr) -> [u8; 32] {
    let mut out = [0u8; 32];
    out.copy_from_slice(&x.into_bigint().to_bytes_le());
    out
}

fn le_fr(bytes: &[u8; 32]) -> ArkFr {
    ArkFr::from_le_bytes_mod_order(bytes)
}

/// The signed digits of a scalar.
fn signed_digits(bytes: &[u8; 32], num_windows: usize, window: usize) -> Vec<i64> {
    let bit = |i: usize| -> i64 {
        if i < 256 {
            ((bytes[i / 8] >> (i % 8)) & 1) as i64
        } else {
            0
        }
    };
    let mut carry = 0i64;
    let mut digits = Vec::new();
    for w in 0..num_windows {
        let mut d = carry;
        for b in 0..window {
            d += bit(w * window + b) << b;
        }
        if d > 1i64 << (window - 1) {
            d -= 1i64 << window;
            carry = 1;
        } else {
            carry = 0;
        }
        digits.push(d);
    }
    assert_eq!(carry, 0);
    digits
}

impl<C: SimCurve> SimDevice<C> {
    fn new() -> Self {
        SimDevice { buffers: HashMap::new(), done: 0 }
    }

    fn words(&self, slot: usize) -> &Vec<u32> {
        match &self.buffers[&slot] {
            Buf::Words(w) => w,
            _ => panic!("not words"),
        }
    }

    fn words_mut(&mut self, slot: usize) -> &mut Vec<u32> {
        match self.buffers.get_mut(&slot).unwrap() {
            Buf::Words(w) => w,
            _ => panic!("not words"),
        }
    }

    fn scalars(&self, slot: usize) -> &Vec<ArkFr> {
        match &self.buffers[&slot] {
            Buf::Scalars(s) => s,
            _ => panic!("not scalars"),
        }
    }

    fn scalars_mut(&mut self, slot: usize) -> &mut Vec<ArkFr> {
        match self.buffers.get_mut(&slot).unwrap() {
            Buf::Scalars(s) => s,
            _ => panic!("not scalars"),
        }
    }

    fn points(&self, slot: usize) -> &Vec<C::Ark> {
        match &self.buffers[&slot] {
            Buf::Points(p) => p,
            _ => panic!("not points"),
        }
    }

    fn points_mut(&mut self, slot: usize) -> &mut Vec<C::Ark> {
        match self.buffers.get_mut(&slot).unwrap() {
            Buf::Points(p) => p,
            _ => panic!("not points"),
        }
    }

    fn bases(&self, slot: usize) -> &Vec<Affine<C>> {
        match &self.buffers[&slot] {
            Buf::Bases(b) => b,
            _ => panic!("not bases"),
        }
    }

    fn digits(&self, slot: usize) -> &Vec<i64> {
        match &self.buffers[&slot] {
            Buf::Digits(d) => d,
            _ => panic!("not digits"),
        }
    }

    fn host<B: SimBase<C>>(data: &HostData<Fr, B>) -> Buf<C> {
        match data {
            HostData::Scalars(s) => Buf::Scalars(ark_frs(s)),
            HostData::ScalarVec(s) => Buf::Scalars(ark_frs(s)),
            HostData::Bases(b) => Buf::Bases(b.iter().map(|b| b.point()).collect()),
            HostData::BaseVec(b) => Buf::Bases(b.iter().map(|b| b.point()).collect()),
            HostData::Exponents(e) => Buf::Exponents(e.clone()),
            HostData::Words(w) => Buf::Words(w.clone()),
            HostData::ZeroWords(n) => Buf::Words(vec![0; *n]),
            HostData::Identities(n) => Buf::Points(vec![C::Ark::ZERO; *n]),
        }
    }

    /// Run the commands that have been added since the last time.
    fn run<B: SimBase<C>>(&mut self, session: &Session<Fr, B>) -> Vec<Out<C>> {
        let mut outs = Vec::new();
        while self.done < session.len() {
            match &session.commands()[self.done] {
                Command::Alloc { slot, elem, len } => {
                    assert!(*len > 0);
                    let junk = ArkFr::from(77u64);
                    let buf = match elem {
                        Elem::Byte => Buf::Bytes(vec![0xaa; *len]),
                        Elem::Digit => Buf::Digits(vec![99; *len]),
                        Elem::Word => Buf::Words(vec![12345; *len]),
                        Elem::Exponent => Buf::Exponents(vec![[0xaa; 32]; *len]),
                        Elem::Scalar => Buf::Scalars(vec![junk; *len]),
                        Elem::Base => Buf::Bases(vec![Affine::<C>::generator(); *len]),
                        Elem::Point => Buf::Points(vec![C::Ark::generator(); *len]),
                    };
                    self.buffers.insert(*slot, buf);
                }
                Command::Upload { slot, data } => {
                    self.buffers.insert(*slot, Self::host(data));
                }
                Command::Write { slot, data } => {
                    let new = Self::host(data);
                    match (self.buffers.get_mut(slot).unwrap(), new) {
                        (Buf::Words(w), Buf::Words(n)) => w[..n.len()].copy_from_slice(&n),
                        (Buf::Points(p), Buf::Points(n)) => p[..n.len()].copy_from_slice(&n),
                        (Buf::Scalars(s), Buf::Scalars(n)) => s[..n.len()].copy_from_slice(&n),
                        _ => panic!("cannot write this to that"),
                    }
                }
                Command::Launch { kernel, global, local, args } => {
                    assert!(global * local > 0);
                    let locals = args.iter().filter(|a| matches!(a, Arg::LocalPoints(_))).count();
                    assert!(locals <= 1);
                    self.launch(*kernel, global * local, args);
                }
                Command::Read { slot, elem, len } => {
                    let out = match (&self.buffers[slot], elem) {
                        (Buf::Bytes(b), Elem::Byte) => Out::Bytes(b[..*len].to_vec()),
                        (Buf::Words(w), Elem::Word) => Out::Words(w[..*len].to_vec()),
                        (Buf::Scalars(s), Elem::Scalar) => Out::Scalars(frs(&s[..*len])),
                        (Buf::Points(p), Elem::Point) => {
                            Out::Points(p[..*len].iter().map(C::group).collect())
                        }
                        (_, e) => panic!("cannot read {:?}", e),
                    };
                    outs.push(out);
                }
                Command::Free { slot } => {
                    assert!(self.buffers.remove(slot).is_some());
                }
            }
            self.done += 1;
        }
        outs
    }

    fn launch(&mut self, kernel: KernelId, threads: usize, args: &[Arg]) {
        let buf = |i: usize| match args[i] {
            Arg::Buffer(b) => b,
            _ => panic!("not a buffer"),
        };
        let word = |i: usize| match args[i] {
            Arg::Word(w) => w as usize,
            _ => panic!("not a word"),
        };
        match kernel {
            KernelId::FixVar | KernelId::FixVarIndexed => {
                let n = word(3);
                assert!(threads >= n);
                let i = if kernel == KernelId::FixVar { 0 } else { word(4) };
                let poly = self.scalars(buf(0)).clone();
                let r = self.scalars(buf(2))[i];
                let out = self.scalars_mut(buf(1));
                for j in 0..n {
                    out[j] = poly[2 * j] + r * (poly[2 * j + 1] - poly[2 * j]);
                }
            }
            KernelId::FixVarToScalar => {
                let n = word(3);
                assert!(threads >= n);
                let poly = self.scalars(buf(0)).clone();
                let r = self.scalars(buf(2))[0];
                let mut bytes = Vec::new();
                for j in 0..n {
                    bytes.extend(standard(&(poly[2 * j] + r * (poly[2 * j + 1] - poly[2 * j]))));
                }
                self.buffers.insert(buf(1), Buf::Bytes(bytes));
            }
            KernelId::ToScalarBytes | KernelId::ToScalarBytesOffset => {
                let n = word(2);
                assert!(threads >= n);
                let from = if kernel == KernelId::ToScalarBytes { 0 } else { word(3) };
                let bytes: Vec<[u8; 32]> =
                    self.scalars(buf(0))[from..from + n].iter().map(standard).collect();
                let to = buf(1);
                let flat = matches!(&self.buffers[&to], Buf::Bytes(_));
                if flat {
                    self.buffers.insert(to, Buf::Bytes(bytes.concat()));
                } else {
                    self.buffers.insert(to, Buf::Exponents(bytes));
                }
            }
            KernelId::ScalePoly => {
                let n = word(3);
                let c = self.scalars(buf(2))[0];
                let poly = self.scalars(buf(0)).clone();
                let out = self.scalars_mut(buf(1));
                for j in 0..n {
                    out[j] = poly[j] * c;
                }
            }
            KernelId::AddPoly | KernelId::SubPoly => {
                let n = word(3);
                let a = self.scalars(buf(0)).clone();
                let b = self.scalars(buf(1)).clone();
                let out = self.scalars_mut(buf(2));
                for j in 0..n {
                    out[j] = if kernel == KernelId::AddPoly { a[j] + b[j] } else { a[j] - b[j] };
                }
            }
            KernelId::LinearCombine => {
                let (k, n) = (word(3), word(4));
                assert!(threads >= n);
                let flat = self.scalars(buf(0)).clone();
                let coeffs = self.scalars(buf(1)).clone();
                let out = self.scalars_mut(buf(2));
                for j in 0..n {
                    out[j] = (0..k).map(|i| flat[i * n + j] * coeffs[i]).sum();
                }
            }
            KernelId::LinearCombineAccumulate => {
                let src_len = word(3);
                assert!(threads >= word(4));
                let src = self.scalars(buf(0)).clone();
                let c = self.scalars(buf(2))[0];
                let out = self.scalars_mut(buf(1));
                for j in 0..src_len {
                    out[j] += src[j] * c;
                }
            }
            KernelId::WitnessPolySequential => {
                let n = word(3);
                let f = self.scalars(buf(0)).clone();
                let u = self.scalars(buf(2))[0];
                let out = self.scalars_mut(buf(1));
                let mut carry = ArkFr::ZERO;
                for i in (1..n).rev() {
                    carry = f[i] + carry * u;
                    out[i - 1] = carry;
                }
            }
            KernelId::WitnessPolyBatch => {
                let (n, points) = (word(3), word(4));
                let f = self.scalars(buf(0)).clone();
                let us = self.scalars(buf(1)).clone();
                let out = self.scalars_mut(buf(2));
                for p in 0..points {
                    let mut carry = ArkFr::ZERO;
                    for i in (1..n).rev() {
                        carry = f[i] + carry * us[p];
                        out[p * (n - 1) + i - 1] = carry;
                    }
                }
            }
            KernelId::WitnessPolyBatchPhase1 => {
                let (n, points, size, chunks) = (word(4), word(5), word(6), word(7));
                assert!(threads >= points * chunks);
                let f = self.scalars(buf(0)).clone();
                let us = self.scalars(buf(3)).clone();
                for p in 0..points {
                    for c in 0..chunks {
                        let end = std::cmp::min((c + 1) * size, n - 1);
                        let mut carry = ArkFr::ZERO;
                        for j in (c * size..end).rev() {
                            carry = f[j + 1] + carry * us[p];
                            self.scalars_mut(buf(1))[p * (n - 1) + j] = carry;
                        }
                        self.scalars_mut(buf(2))[p * chunks + c] = carry;
                    }
                }
            }
            KernelId::WitnessCarryPropagate => {
                let (chunks, points, size, n) = (word(3), word(4), word(5), word(6));
                assert!(threads >= points);
                let carries = self.scalars(buf(0)).clone();
                let us = self.scalars(buf(2)).clone();
                let out = self.scalars_mut(buf(1));
                for p in 0..points {
                    let mut carry = ArkFr::ZERO;
                    for c in (0..chunks).rev() {
                        out[p * chunks + c] = carry;
                        let len = std::cmp::min((c + 1) * size, n - 1) - c * size;
                        carry = carries[p * chunks + c] + carry * us[p].pow([len as u64]);
                    }
                }
            }
            KernelId::WitnessPolyBatchPhase3 => {
                let (n, points, size, chunks) = (word(3), word(4), word(5), word(6));
                let carries = self.scalars(buf(1)).clone();
                let us = self.scalars(buf(2)).clone();
                let out = self.scalars_mut(buf(0));
                for p in 0..points {
                    for c in 0..chunks {
                        let end = std::cmp::min((c + 1) * size, n - 1);
                        let mut carry = carries[p * chunks + c];
                        for j in (c * size..end).rev() {
                            carry *= us[p];
                            out[p * (n - 1) + j] += carry;
                        }
                    }
                }
            }
            KernelId::EvalUnivariateBatch => {
                let (polys, n, points) = (word(3), word(4), word(5));
                assert!(threads >= polys * points);
                let flat = self.scalars(buf(0)).clone();
                let us = self.scalars(buf(1)).clone();
                let out = self.scalars_mut(buf(2));
                for p in 0..points {
                    for i in 0..polys {
                        let mut acc = ArkFr::ZERO;
                        for j in (0..n).rev() {
                            acc = acc * us[p] + flat[i * n + j];
                        }
                        out[p * polys + i] = acc;
                    }
                }
            }
            KernelId::PreprocessSignedDigits => {
                let (n, windows, window) = (word(2), word(3), word(4));
                assert!(threads >= n);
                let scalars = match &self.buffers[&buf(0)] {
                    Buf::Exponents(e) => e.clone(),
                    _ => panic!("not in standard form"),
                };
                match self.buffers.get_mut(&buf(1)).unwrap() {
                    Buf::Digits(d) => {
                        for i in 0..n {
                            let mine = signed_digits(&scalars[i], windows, window);
                            d[i * windows..(i + 1) * windows].copy_from_slice(&mine);
                        }
                    }
                    _ => panic!("not digits"),
                }
            }
            KernelId::MultiexpSigned => {
                let (n, groups, windows, window) = (word(4), word(5), word(6), word(7));
                assert!(threads >= groups * windows);
                let bases = self.bases(buf(0)).clone();
                let digits = self.digits(buf(3)).clone();
                let per_group = n.div_ceil(groups);
                let out = self.points_mut(buf(2));
                for g in 0..groups {
                    for w in 0..windows {
                        let mut buckets = vec![C::Ark::ZERO; 1 << (window - 1)];
                        for i in g * per_group..std::cmp::min((g + 1) * per_group, n) {
                            let d = digits[i * windows + w];
                            if d > 0 {
                                buckets[d as usize - 1] += bases[i];
                            } else if d < 0 {
                                buckets[d.unsigned_abs() as usize - 1] -= bases[i];
                            }
                        }
                        let (mut sum, mut acc) = (C::Ark::ZERO, C::Ark::ZERO);
                        for b in buckets.iter().rev() {
                            sum += b;
                            acc += sum;
                        }
                        out[g * windows + w] = acc;
                    }
                }
            }
            KernelId::DecomposeToPairs => {
                let (n, windows, buckets) = (word(3), word(4), word(5));
                assert!(threads >= n * windows);
                let digits = self.digits(buf(0)).clone();
                for i in 0..n {
                    for w in 0..windows {
                        let d = digits[i * windows + w];
                        let (key, value) = if d == 0 {
                            (u32::MAX, 0)
                        } else {
                            assert!(d.unsigned_abs() as usize <= buckets);
                            let sign = if d < 0 { 1u32 << 31 } else { 0 };
                            ((w * buckets) as u32 + d.unsigned_abs() as u32 - 1, i as u32 | sign)
                        };
                        self.words_mut(buf(1))[i * windows + w] = key;
                        self.words_mut(buf(2))[i * windows + w] = value;
                    }
                }
            }
            KernelId::U32FillZero => {
                let n = word(1);
                self.words_mut(buf(0))[..n].fill(0);
            }
            KernelId::U32CopyBuffer => {
                let n = word(2);
                let from = self.words(buf(0))[..n].to_vec();
                self.words_mut(buf(1))[..n].copy_from_slice(&from);
            }
            KernelId::CountBuckets => {
                let pairs = word(2);
                assert!(threads >= pairs);
                let keys = self.words(buf(0)).clone();
                let counts = self.words_mut(buf(1));
                for key in &keys[..pairs] {
                    if *key != u32::MAX {
                        counts[*key as usize] += 1;
                    }
                }
            }
            KernelId::PrefixSum => {
                let n = word(4);
                let counts = self.words(buf(0)).clone();
                let mut at = 0;
                let mut ids = Vec::new();
                for b in 0..n {
                    self.words_mut(buf(1))[b] = at;
                    at += counts[b];
                    if counts[b] > 0 {
                        ids.push(b as u32);
                    }
                }
                self.words_mut(buf(2))[..ids.len()].copy_from_slice(&ids);
                self.words_mut(buf(3))[0] = ids.len() as u32;
            }
            KernelId::ScatterToSorted => {
                let pairs = word(4);
                let keys = self.words(buf(0)).clone();
                let values = self.words(buf(1)).clone();
                for i in 0..pairs {
                    if keys[i] != u32::MAX {
                        let at = self.words(buf(2))[keys[i] as usize];
                        self.words_mut(buf(2))[keys[i] as usize] += 1;
                        self.words_mut(buf(3))[at as usize] = values[i];
                    }
                }
            }
            KernelId::AccumulateSortedBuckets => {
                let n = word(6);
                assert!(threads >= n);
                let ids = self.words(buf(4)).clone();
                for id in &ids[..n] {
                    let (start, count) =
                        (self.words(buf(2))[*id as usize], self.words(buf(3))[*id as usize]);
                    let sum = self.sum(buf(0), buf(1), start, count);
                    self.points_mut(buf(5))[*id as usize] = sum;
                }
            }
            KernelId::AccumulateAllSortedBuckets => {
                let n = word(5);
                assert!(threads >= n);
                for b in 0..n {
                    let (start, count) = (self.words(buf(2))[b], self.words(buf(3))[b]);
                    let sum = self.sum(buf(0), buf(1), start, count);
                    self.points_mut(buf(4))[b] = sum;
                }
            }
            KernelId::AccumulateChunked => {
                let n = word(5);
                assert!(threads >= n);
                let table = self.words(buf(3)).clone();
                assert_eq!(table.len(), 3 * n);
                for c in 0..n {
                    let start = self.words(buf(2))[table[3 * c] as usize] + table[3 * c + 1];
                    let sum = self.sum(buf(0), buf(1), start, table[3 * c + 2]);
                    self.points_mut(buf(4))[c] = sum;
                }
            }
            KernelId::ReducePartialBuckets => {
                let n = word(4);
                let ids = self.words(buf(1)).clone();
                let table = self.words(buf(2)).clone();
                assert_eq!(table.len(), 2 * n);
                for t in 0..n {
                    let (first, count) = (table[2 * t] as usize, table[2 * t + 1] as usize);
                    let sum = self.points(buf(0))[first..first + count].iter().sum::<C::Ark>();
                    self.points_mut(buf(3))[ids[t] as usize] = sum;
                }
            }
            KernelId::ReduceBucketsChunked => {
                let (buckets, chunks) = (word(3), word(4));
                let windows = threads / 256 / chunks;
                let results = self.points(buf(0)).clone();
                for w in 0..windows {
                    for c in 0..chunks {
                        let (mut sum, mut sbp) = (C::Ark::ZERO, C::Ark::ZERO);
                        let end = std::cmp::min((c + 1) * 256, buckets);
                        for b in (c * 256..end).rev() {
                            sum += results[w * buckets + b];
                            sbp += sum;
                        }
                        self.points_mut(buf(1))[w * chunks + c] = sbp;
                        self.points_mut(buf(2))[w * chunks + c] = sum;
                    }
                }
            }
            KernelId::CombineChunksToWindows => {
                let (windows, chunks, size) = (word(3), word(4), word(5));
                for w in 0..windows {
                    let mut acc = C::Ark::ZERO;
                    for c in 0..chunks {
                        acc += self.points(buf(0))[w * chunks + c];
                        acc += self.points(buf(1))[w * chunks + c].mul_bigint([(c * size) as u64]);
                    }
                    self.points_mut(buf(2))[w] = acc;
                }
            }
            KernelId::ReduceWindows => {
                let (windows, window) = (word(2), word(3));
                let mut acc = C::Ark::ZERO;
                for w in (0..windows).rev() {
                    for _ in 0..window {
                        acc.double_in_place();
                    }
                    acc += self.points(buf(0))[w];
                }
                self.points_mut(buf(1))[0] = acc;
            }
            KernelId::CopyAtOffset => {
                let p = self.points(buf(0))[0];
                let i = word(2);
                self.points_mut(buf(1))[i] = p;
            }
            KernelId::BatchScalarMul => {
                let (n, window, windows, bits) = (word(3), word(4), word(5), word(6));
                assert!(threads >= n);
                assert_eq!(bits, 254);
                let table = self.bases(buf(0)).clone();
                let scalars = match &self.buffers[&buf(1)] {
                    Buf::Exponents(e) => e.clone(),
                    _ => panic!("not in standard form"),
                };
                for i in 0..n {
                    let mut acc = C::Ark::ZERO;
                    for w in 0..windows {
                        let mut digit = 0usize;
                        for b in 0..window {
                            let at = w * window + b;
                            if at < 256 && (scalars[i][at / 8] >> (at % 8)) & 1 == 1 {
                                digit |= 1 << b;
                            }
                        }
                        acc += table[(w << window) + digit];
                    }
                    self.points_mut(buf(2))[i] = acc;
                }
            }
        }
    }

    fn sum(&self, bases: usize, sorted: usize, start: u32, count: u32) -> C::Ark {
        let mut acc = C::Ark::ZERO;
        for v in &self.words(sorted)[start as usize..(start + count) as usize] {
            let base = self.bases(bases)[(v & 0x7fff_ffff) as usize];
            if v >> 31 == 1 {
                acc -= base;
            } else {
                acc += base;
            }
        }
        acc
    }
}

fn words<C: SimCurve>(out: &Out<C>) -> Vec<u32> {
    match out {
        Out::Words(w) => w.clone(),
        _ => panic!("not words"),
    }
}

fn scalars<C: SimCurve>(out: &Out<C>) -> Vec<Fr> {
    match out {
        Out::Scalars(s) => s.clone(),
        _ => panic!("not scalars"),
    }
}

fn points<C: SimCurve>(out: &Out<C>) -> Vec<C::Group> {
    match out {
        Out::Points(p) => p.clone(),
        _ => panic!("not points"),
    }
}

fn program() -> Program {
    Program::new("simulated".to_string(), Vec::new())
}

fn device(compute_units: u32) -> Device {
    Device::new(
        Vendor(0x10de),
        "simulated".to_string(),
        16 << 30,
        compute_units,
        Some((8, 6)),
        PciId(1),
        None,
    )
}

fn random_bases(n: usize) -> Vec<ArkG1Affine> {
    let mut rng = ark_std::test_rng();
    (0..n).map(|_| ArkG1::rand(&mut rng).into_affine()).collect()
}

fn reprs(bases: &[ArkG1Affine]) -> Vec<G1AffineM> {
    bases.iter().map(|b| affine(b).to_gpu()).collect()
}

fn random_scalars(n: usize) -> Vec<ArkFr> {
    let mut rng = ark_std::test_rng();
    (0..n).map(|_| ArkFr::rand(&mut rng)).collect()
}

fn exponents(scalars: &[ArkFr]) -> Vec<[u64; 4]> {
    scalars.iter().map(|s| s.into_bigint().0).collect()
}

fn msm(bases: &[ArkG1Affine], scalars: &[ArkFr]) -> ArkG1 {
    bases.iter().zip(scalars).map(|(b, s)| *b * s).sum()
}

fn eval(poly: &[ArkFr], x: ArkFr) -> ArkFr {
    poly.iter().rev().fold(ArkFr::ZERO, |acc, c| acc * x + c)
}

fn fix(poly: &[ArkFr], r: ArkFr) -> Vec<ArkFr> {
    (0..poly.len() / 2).map(|j| poly[2 * j] + r * (poly[2 * j + 1] - poly[2 * j])).collect()
}

fn witness(poly: &[ArkFr], u: ArkFr) -> Vec<ArkFr> {
    let mut h = vec![ArkFr::ZERO; poly.len() - 1];
    let mut carry = ArkFr::ZERO;
    for i in (1..poly.len()).rev() {
        carry = poly[i] + carry * u;
        h[i - 1] = carry;
    }
    h
}

#[test]
fn multiexp_gives_the_multiexponentiation() {
    for n in [1usize, 2, 37, 130] {
        let bases = random_bases(n);
        let mut scalars = random_scalars(n);
        scalars[0] = -ArkFr::from(1u64);
        let kernel = SingleMultiexpKernel::<G1Affine>::create(program(), &device(2), false).unwrap();
        let gpu = reprs(&bases);
        let job = kernel.multiexp(&gpu, &exponents(&scalars), false).unwrap();
        let outs = Sim::new().run(job.session());
        assert_eq!(outs.len(), 1);
        let result = job.finish(&points(&outs[0]));
        assert_eq!(ark_group(&result), msm(&bases, &scalars));
    }
}

#[test]
fn multiexp_of_small_scalars_uses_few_windows() {
    let bases = random_bases(40);
    let scalars: Vec<ArkFr> = (0..40u64).map(ArkFr::from).collect();
    let kernel = SingleMultiexpKernel::<G1Affine>::create(program(), &device(2), false).unwrap();
    let gpu = reprs(&bases);
    let job = kernel.multiexp(&gpu, &exponents(&scalars), false).unwrap();
    // The largest scalar is 39, which has 6 bits. With one work unit per term the window has 2.
    assert_eq!(job.shape().effective_bits, 6);
    assert_eq!(job.shape().window_size, 2);
    assert_eq!(job.shape().num_windows, 4);
    let outs = Sim::new().run(job.session());
    assert_eq!(ark_group(&job.finish(&points(&outs[0]))), msm(&bases, &scalars));
}

#[test]
fn multiexp_is_aborted_only_with_a_hook() {
    let bases = random_bases(3);
    let gpu = reprs(&bases);
    let exps = exponents(&random_scalars(3));
    let with = SingleMultiexpKernel::<G1Affine>::create(program(), &device(2), true).unwrap();
    let without = SingleMultiexpKernel::<G1Affine>::create(program(), &device(2), false).unwrap();
    assert!(with.is_abortable() && !without.is_abortable());
    assert!(matches!(with.multiexp(&gpu, &exps, true), Err(EcError::Aborted)));
    assert!(with.multiexp(&gpu, &exps, false).is_ok());
    assert!(without.multiexp(&gpu, &exps, true).is_ok());
    assert!(matches!(with.multiexp_sorted(&gpu, &exps, true), Err(EcError::Aborted)));
    assert!(without.multiexp_sorted(&gpu, &exps, true).is_ok());
}

/// Scalars of 64 and of 32 bits leave the windows above them out.
#[test]
fn small_scalars_take_fewer_windows() {
    let mut rng = ark_std::test_rng();
    let bases = random_bases(50);
    let gpu = reprs(&bases);
    let kernel = SingleMultiexpKernel::<G1Affine>::create(program(), &device(2), false).unwrap();
    for bits in [64usize, 32] {
        let mut scalars: Vec<ArkFr> =
            (0..50).map(|_| ArkFr::from(u64::rand(&mut rng) >> (64 - bits))).collect();
        scalars[0] = ArkFr::from(u64::MAX >> (64 - bits));
        let job = kernel.multiexp(&gpu, &exponents(&scalars), false).unwrap();
        assert_eq!(job.shape().effective_bits, bits);
        assert_eq!(job.shape().num_windows, (bits + 1).div_ceil(job.shape().window_size));
        let outs = Sim::new().run(job.session());
        assert_eq!(ark_group(&job.finish(&points(&outs[0]))), msm(&bases, &scalars));
        assert_eq!(run_sorted(&bases, &scalars).0, msm(&bases, &scalars));
    }
}

/// The second group, with both ways of multiexponentiation.
#[test]
fn multiexps_in_the_second_group() {
    let mut rng = ark_std::test_rng();
    let n = 20;
    let bases: Vec<ArkG2Affine> = (0..n).map(|_| ArkG2::rand(&mut rng).into_affine()).collect();
    let scalars = random_scalars(n);
    let expected: ArkG2 = bases.iter().zip(&scalars).map(|(b, s)| *b * s).sum();
    let gpu: Vec<G2AffineM> = bases.iter().map(|b| affine2(b).to_gpu()).collect();
    let kernel = SingleMultiexpKernel::<G2Affine>::create(program(), &device(2), false).unwrap();
    let job = kernel.multiexp(&gpu, &exponents(&scalars), false).unwrap();
    let outs = SimDevice::<OnG2>::new().run(job.session());
    assert_eq!(ark_group2(&job.finish(&points(&outs[0]))), expected);
    let mut job = kernel.multiexp_sorted(&gpu, &exponents(&scalars), false).unwrap();
    let mut sim = SimDevice::<OnG2>::new();
    let outs = sim.run(job.session());
    job.resume_with_offsets(words(&outs[0])[0], words(&outs[1]));
    let outs = sim.run(job.session());
    job.resume_with_counts(&words(&outs[0]), &words(&outs[1]));
    let outs = sim.run(job.session());
    assert_eq!(ark_group2(&job.finish(&points(&outs[0]))), expected);
}

fn run_sorted(bases: &[ArkG1Affine], scalars: &[ArkFr]) -> (ArkG1, Vec<KernelId>) {
    let kernel = SingleMultiexpKernel::<G1Affine>::create(program(), &device(2), false).unwrap();
    let gpu = reprs(bases);
    let mut job = kernel.multiexp_sorted(&gpu, &exponents(scalars), false).unwrap();
    let mut sim = Sim::new();
    let outs = sim.run(job.session());
    assert_eq!(outs.len(), 2);
    let num_nonempty = words(&outs[0])[0];
    job.resume_with_offsets(num_nonempty, words(&outs[1]));
    let mut outs = sim.run(job.session());
    if let MsmStage::Counts { num_nonempty } = job.stage() {
        let (counts, ids) = (words(&outs[0]), words(&outs[1]));
        assert!(all_listed(&counts, &ids, num_nonempty));
        job.resume_with_counts(&counts, &ids);
        outs = sim.run(job.session());
    }
    assert_eq!(job.stage(), MsmStage::Result);
    let kernels = job
        .session()
        .commands()
        .iter()
        .filter_map(|c| match c {
            Command::Launch { kernel, .. } => Some(*kernel),
            _ => None,
        })
        .collect();
    (ark_group(&job.finish(&points(&outs[0]))), kernels)
}

#[test]
fn sorted_multiexp_gives_the_multiexponentiation() {
    for n in [1usize, 5, 64] {
        let bases = random_bases(n);
        let scalars = random_scalars(n);
        let (result, kernels) = run_sorted(&bases, &scalars);
        assert_eq!(result, msm(&bases, &scalars));
        assert!(kernels.contains(&KernelId::AccumulateSortedBuckets));
    }
}

#[test]
fn sorted_multiexp_splits_large_buckets() {
    // All scalars are the same, so that all points are in the same few buckets.
    let n = 600;
    let bases = random_bases(n);
    let scalars = vec![ArkFr::from(3u64); n];
    let (result, kernels) = run_sorted(&bases, &scalars);
    assert_eq!(result, msm(&bases, &scalars));
    assert!(kernels.contains(&KernelId::AccumulateChunked));
    assert!(kernels.contains(&KernelId::ReducePartialBuckets));
    assert!(!kernels.contains(&KernelId::AccumulateSortedBuckets));
}

#[test]
fn sorted_multiexp_of_zeros_is_the_identity() {
    let bases = random_bases(7);
    let (result, kernels) = run_sorted(&bases, &vec![ArkFr::ZERO; 7]);
    assert_eq!(result, ArkG1::ZERO);
    assert!(!kernels.contains(&KernelId::AccumulateSortedBuckets));
}

#[test]
fn multiexp_over_devices_adds_up() {
    let n = 101;
    let bases = random_bases(n);
    let scalars = random_scalars(n);
    let gpu = reprs(&bases);
    let kernel = MultiexpKernel::<G1Affine>::create(
        vec![program(), program(), program()],
        &[device(1), device(2), device(3)],
    )
    .unwrap();
    assert_eq!(kernel.num_kernels(), 3);
    let (selected, shares) = kernel.multiexp(&gpu, n - 1, 1);
    assert_eq!(selected.len(), n - 1);
    let exps = exponents(&scalars[1..]);
    let mut results = Vec::new();
    for (i, pieces) in shares.iter().enumerate() {
        for (from, to) in pieces {
            let job = kernel
                .kernel(i)
                .multiexp(&selected[*from..*to], &exps[*from..*to], false)
                .unwrap();
            let outs = Sim::new().run(job.session());
            results.push(job.finish(&points(&outs[0])));
        }
    }
    let total = MultiexpKernel::<G1Affine>::finish(&results, None).unwrap();
    assert_eq!(ark_group(&total), msm(&bases[1..], &scalars[1..]));
    assert!(matches!(
        MultiexpKernel::<G1Affine>::finish(&results, Some(EcError::Aborted)),
        Err(EcError::Aborted)
    ));
}

/// A kind of base with a simulated device for its group.
trait Tested: GpuAffine<ScalarField = Fr> {
    type On: SimCurve<Group = <Self as GpuAffine>::Group>;

    fn from_ark(p: &Affine<Self::On>) -> Self;
    fn to_ark(p: &<Self as GpuAffine>::Group) -> <Self::On as SimCurve>::Ark;
}

impl Tested for G1Affine {
    type On = OnG1;

    fn from_ark(p: &ArkG1Affine) -> Self {
        affine(p)
    }

    fn to_ark(p: &G1Projective) -> ArkG1 {
        ark_group(p)
    }
}

impl Tested for G2Affine {
    type On = OnG2;

    fn from_ark(p: &ArkG2Affine) -> Self {
        affine2(p)
    }

    fn to_ark(p: &G2Projective) -> ArkG2 {
        ark_group2(p)
    }
}

/// A multiexponentiation on two devices, against one on the host. The bases may repeat after
/// `distinct` of them.
fn check_multiexp<T: Tested>(bases: &[Affine<T::On>], scalars: &[ArkFr], distinct: usize)
where
    T::GpuRepr: SimBase<T::On>,
{
    let gpu: Vec<T::GpuRepr> = bases.iter().map(|b| T::from_ark(b).to_gpu()).collect();
    let exps = exponents(scalars);
    let kernel =
        MultiexpKernel::<T>::create(vec![program(), program()], &[device(1), device(1)]).unwrap();
    let (selected, shares) = kernel.multiexp(&gpu, exps.len(), 0);
    let mut results = Vec::new();
    for (i, pieces) in shares.iter().enumerate() {
        for (from, to) in pieces {
            let job = kernel
                .kernel(i)
                .multiexp(&selected[*from..*to], &exps[*from..*to], false)
                .unwrap();
            let outs = SimDevice::<T::On>::new().run(job.session());
            results.push(job.finish(&points(&outs[0])));
        }
    }
    let total = T::to_ark(&MultiexpKernel::<T>::finish(&results, None).unwrap());
    // Equal bases are multiplied by the sum of their scalars.
    let mut sums = vec![ArkFr::ZERO; distinct];
    for (i, (base, scalar)) in bases.iter().zip(scalars).enumerate() {
        assert_eq!(*base, bases[i % distinct]);
        sums[i % distinct] += scalar;
    }
    let expected = <T::On as SimCurve>::Ark::msm(&bases[..distinct], &sums).unwrap();
    assert_eq!(total, expected);
}

/// Multiexponentiations of `2^from_log_d` to `2^max_log_d` terms. There are `2^start_log_d` different
/// bases.
fn check_consistency<T: Tested>(start_log_d: usize, from_log_d: usize, max_log_d: usize)
where
    T::GpuRepr: SimBase<T::On>,
{
    let mut rng = ark_std::test_rng();
    let mut bases: Vec<Affine<T::On>> = (0..1 << start_log_d)
        .map(|_| <T::On as SimCurve>::Ark::rand(&mut rng).into_affine())
        .collect();
    for log_d in start_log_d..=max_log_d {
        if log_d >= from_log_d {
            let scalars: Vec<ArkFr> = (0..1 << log_d).map(|_| ArkFr::rand(&mut rng)).collect();
            check_multiexp::<T>(&bases, &scalars, 1 << start_log_d);
        }
        bases = [bases.clone(), bases.clone()].concat();
    }
}

#[test]
fn gpu_multiexp_g1_consistency() {
    check_consistency::<G1Affine>(10, 10, 16);
}

#[test]
fn gpu_multiexp_g2_consistency() {
    check_consistency::<G2Affine>(10, 10, 15);
}

#[test]
fn gpu_multiexp_g2_consistency_of_many() {
    check_consistency::<G2Affine>(10, 16, 16);
}

/// Scalars of 64 bits.
#[test]
fn gpu_multiexp_small_scalars() {
    let mut rng = ark_std::test_rng();
    let bases = random_bases(1 << 16);
    let scalars: Vec<ArkFr> =
        (0..1 << 16).map(|_| ArkFr::from(u64::rand(&mut rng))).collect();
    check_multiexp::<G1Affine>(&bases, &scalars, bases.len());
}

/// Scalars of 32 bits.
#[test]
fn gpu_multiexp_very_small_scalars() {
    let mut rng = ark_std::test_rng();
    let bases = random_bases(1 << 14);
    let scalars: Vec<ArkFr> =
        (0..1 << 14).map(|_| ArkFr::from(u32::rand(&mut rng) as u64)).collect();
    check_multiexp::<G1Affine>(&bases, &scalars, bases.len());
}

/// One device with all the work.
#[test]
fn gpu_multiexp_profile() {
    let log_n = 16;
    let kernel = SingleMultiexpKernel::<G1Affine>::create(program(), &device(1), false).unwrap();
    let bases = random_bases(1 << log_n);
    let scalars = random_scalars(1 << log_n);
    let gpu = reprs(&bases);
    let job = kernel.multiexp(&gpu, &exponents(&scalars), false).expect("multiexp failed");
    let outs = Sim::new().run(job.session());
    assert_eq!(ark_group(&job.finish(&points(&outs[0]))), ArkG1::msm(&bases, &scalars).unwrap());
}

#[test]
fn poly_ops_sessions_compute_what_they_say() {
    let kernel = SinglePolyOpsKernel::<Fr>::create(program()).unwrap();
    let a = random_scalars(16);
    let b: Vec<ArkFr> = a.iter().map(|x| x.square()).collect();
    let r = ArkFr::from(11u64);
    let (la, lb) = (frs(&a), frs(&b));

    let out = Sim::new().run(&kernel.fix_var(&la, &fr(r)));
    assert_eq!(ark_frs(&scalars(&out[0])), fix(&a, r));

    let out = Sim::new().run(&kernel.scale_poly(&la, &fr(r)));
    assert_eq!(ark_frs(&scalars(&out[0])), a.iter().map(|x| *x * r).collect::<Vec<_>>());

    let out = Sim::new().run(&kernel.add_poly(&la, &lb));
    let sums: Vec<ArkFr> = a.iter().zip(&b).map(|(x, y)| *x + y).collect();
    assert_eq!(ark_frs(&scalars(&out[0])), sums);

    let out = Sim::new().run(&kernel.sub_poly(&la, &lb));
    let differences: Vec<ArkFr> = a.iter().zip(&b).map(|(x, y)| *x - y).collect();
    assert_eq!(ark_frs(&scalars(&out[0])), differences);

    let out = Sim::new().run(&kernel.witness_poly(&la, &fr(r)));
    assert_eq!(ark_frs(&scalars(&out[0])), witness(&a, r));

    let coeffs = [ArkFr::from(5u64), ArkFr::from(7u64)];
    let lc = frs(&coeffs);
    let polys: Vec<&[Fr]> = vec![&la, &lb];
    let out = Sim::new().run(&kernel.linear_combine(&polys, &lc));
    let combined: Vec<ArkFr> =
        a.iter().zip(&b).map(|(x, y)| *x * coeffs[0] + *y * coeffs[1]).collect();
    assert_eq!(ark_frs(&scalars(&out[0])), combined);

    let us = [ArkFr::from(2u64), ArkFr::from(3u64), ArkFr::from(4u64)];
    let lus = frs(&us);
    let out = Sim::new().run(&kernel.eval_univariate_batch(&polys, &lus));
    let rows = kernel.finish_eval(&scalars(&out[0]), 3, 2);
    for (i, u) in us.iter().enumerate() {
        assert_eq!(ark_frs(&rows[i]), vec![eval(&a, *u), eval(&b, *u)]);
    }

    let out = Sim::new().run(&kernel.witness_poly_batch(&la, &lus));
    let rows = kernel.finish_witness(&scalars(&out[0]), 3, 15);
    for (i, u) in us.iter().enumerate() {
        assert_eq!(ark_frs(&rows[i]), witness(&a, *u));
    }

    let bytes = |out: &Out<OnG1>| match out {
        Out::Bytes(b) => b.clone(),
        _ => panic!("not bytes"),
    };
    let out = Sim::new().run(&kernel.to_scalar_bytes(&la));
    let rows = kernel.finish_scalars(&bytes(&out[0]), 16);
    assert_eq!(rows.iter().map(le_fr).collect::<Vec<_>>(), a);
    assert_eq!(kernel.to_scalar_bytes(&[]).len(), 0);

    let out = Sim::new().run(&kernel.fix_var_to_scalar(&la, &fr(r)));
    let rows = kernel.finish_scalars(&bytes(&out[0]), 8);
    assert_eq!(rows.iter().map(le_fr).collect::<Vec<_>>(), fix(&a, r));
}

#[test]
fn fix_vars_fixes_one_variable_after_the_other() {
    let kernel = SinglePolyOpsKernel::<Fr>::create(program()).unwrap();
    let a = random_scalars(16);
    let challenges = random_scalars(4);
    let (la, lc) = (frs(&a), frs(&challenges));
    let mut expected = Vec::new();
    let mut current = a.clone();
    for r in &challenges {
        current = fix(&current, *r);
        expected.push(current.clone());
    }
    match kernel.fix_vars(&la, &lc) {
        FixVars::Run(s) => {
            let outs = Sim::new().run(&s);
            let got: Vec<Vec<Fr>> = outs.iter().map(scalars).collect();
            assert_eq!(got.iter().map(|g| ark_frs(g)).collect::<Vec<_>>(), expected);
            assert_eq!(ark_fr(&kernel.finish_fix_vars(&got)), expected[3][0]);
        }
        FixVars::Value(_) => panic!("there is something to fix"),
    }
    match kernel.fix_vars(&la, &[]) {
        FixVars::Value(v) => assert_eq!(ark_fr(&v), a[0]),
        FixVars::Run(_) => panic!("there is nothing to fix"),
    }
    assert_eq!(kernel.fix_vars_with_intermediates(&la, &[]).len(), 0);
}

#[test]
fn combined_ops_combine_the_intermediates() {
    let ops = CombinedPolyOps::<Fr>::create(program()).unwrap();
    let a = random_scalars(8);
    let challenges = random_scalars(3);
    let coeffs: Vec<ArkFr> = (1..=4u64).map(ArkFr::from).collect();
    let (la, lc, lk) = (frs(&a), frs(&challenges), frs(&coeffs));
    let session = match ops.fix_vars_and_combine(&la, &lc, &lk) {
        Either::Run(s) => s,
        Either::Done(_) => panic!("there is something to fix"),
    };
    let got: Vec<Vec<Fr>> = Sim::new().run(&session).iter().map(scalars).collect();
    let (intermediates, combined) = ops.finish_combine(&la, got, &lk);
    let mut expected: Vec<ArkFr> = a.iter().map(|x| *x * coeffs[0]).collect();
    let mut current = a.clone();
    for (i, r) in challenges.iter().enumerate() {
        current = fix(&current, *r);
        assert_eq!(ark_frs(&intermediates[i]), current);
        for (j, x) in current.iter().enumerate() {
            expected[j] += *x * coeffs[i + 1];
        }
    }
    assert_eq!(ark_frs(&combined), expected);
    // Without challenges the combination is that of the polynomial alone.
    match ops.fix_vars_and_combine(&la, &[], &lk[2..3]) {
        Either::Done((none, scaled)) => {
            assert!(none.is_empty());
            let expected: Vec<ArkFr> = a.iter().map(|x| *x * ArkFr::from(3u64)).collect();
            assert_eq!(ark_frs(&scaled), expected);
        }
        Either::Run(_) => panic!("there is nothing to fix"),
    }
    match ops.fix_vars_and_combine(&la, &[], &[]) {
        Either::Done((none, same)) => {
            assert!(none.is_empty());
            assert_eq!(same, la);
        }
        Either::Run(_) => panic!("there is nothing to fix"),
    }
    match ops.fix_vars_with_intermediates_optimized(&la, &lc) {
        Either::Run(s) => {
            let got: Vec<Vec<Fr>> = Sim::new().run(&s).iter().map(scalars).collect();
            let result = ops.finish_fix_vars(got);
            assert_eq!(ark_fr(&result.final_value), current[0]);
            assert_eq!(result.intermediates.len(), 3);
        }
        Either::Done(_) => panic!("there is something to fix"),
    }
}

#[test]
fn eval_and_witness_batch_in_one_session() {
    let ops = CombinedPolyOps::<Fr>::create(program()).unwrap();
    // Long enough for chunks of more than one element, with a shorter one at the end.
    let n = 8200;
    let a = random_scalars(n);
    let b: Vec<ArkFr> = a.iter().rev().copied().collect();
    let us = [ArkFr::from(5u64), ArkFr::from(6u64)];
    let coeffs = [ArkFr::from(8u64), ArkFr::from(9u64)];
    let (la, lb, lus, lc) = (frs(&a), frs(&b), frs(&us), frs(&coeffs));
    let polys: Vec<&[Fr]> = vec![&la, &lb];
    let job = ops.eval_and_witness_batch(&polys, &lus, &lc);
    assert_eq!((job.shape().chunk_size, job.shape().num_chunks), (2, 4100));
    let outs = Sim::new().run(job.session());
    let (evals, combined, witnesses) =
        job.finish(&scalars(&outs[0]), scalars(&outs[1]), &scalars(&outs[2]));
    let expected: Vec<ArkFr> =
        a.iter().zip(&b).map(|(x, y)| *x * coeffs[0] + *y * coeffs[1]).collect();
    assert_eq!(ark_frs(&combined), expected);
    for (i, u) in us.iter().enumerate() {
        assert_eq!(ark_frs(&evals[i]), vec![eval(&a, *u), eval(&b, *u)]);
        assert_eq!(ark_frs(&witnesses[i]), witness(&expected, *u));
    }
}

#[test]
fn fix_vars_and_commit_commits_to_each_intermediate() {
    let commit = FusedPolyCommit::<G1Affine>::create(program(), 16).unwrap();
    let n = 32;
    let poly = random_scalars(n);
    let challenges = random_scalars(5);
    let bases = random_bases(n);
    let (lp, lc, gpu) = (frs(&poly), frs(&challenges), reprs(&bases));
    let mut job = match commit.fix_vars_and_commit(&lp, &lc, &gpu) {
        Either::Run(job) => job,
        Either::Done(_) => panic!("there is something to fix"),
    };
    let mut sim = Sim::new();
    let mut current = poly.clone();
    let mut expected = Vec::new();
    let result = loop {
        current = fix(&current, challenges[expected.len()]);
        expected.push(current.clone());
        let outs = sim.run(job.session());
        let intermediate = scalars(&outs[0]);
        assert_eq!(ark_frs(&intermediate), current);
        job.resume_with_offsets(words(&outs[1])[0], words(&outs[2]));
        let mut outs = sim.run(job.session());
        if let MsmStage::Counts { .. } = job.stage() {
            job.resume_with_counts(&words(&outs[0]), &words(&outs[1]));
            outs = sim.run(job.session());
        }
        let uploads = |f: fn(&HostData<Fr, G1AffineM>) -> bool| {
            job.session()
                .commands()
                .iter()
                .filter(|c| matches!(c, Command::Upload { data, .. } if f(data)))
                .count()
        };
        // The bases once; the polynomial and the challenges, but no scalars of the rounds.
        assert_eq!(uploads(|d| matches!(d, HostData::Bases(_))), 1);
        assert_eq!(uploads(|d| matches!(d, HostData::Scalars(_) | HostData::ScalarVec(_))), 2);
        job = match job.finish_round(intermediate, points(&outs[0])[0]) {
            Either::Done(result) => break result,
            Either::Run(job) => job,
        };
    };
    assert_eq!(result.commitments.len(), challenges.len());
    assert_eq!(result.intermediates.len(), challenges.len());
    for (i, poly) in expected.iter().enumerate() {
        assert_eq!(&ark_frs(&result.intermediates[i]), poly);
        assert_eq!(ark_group(&result.commitments[i]), msm(&bases, poly));
    }
    match commit.fix_vars_and_commit(&lp, &[], &gpu) {
        Either::Done(d) => assert!(d.intermediates.is_empty() && d.commitments.is_empty()),
        Either::Run(_) => panic!("there is nothing to fix"),
    }
    // Without challenges no MSM is planned, and no work units are asked for.
    let idle = FusedPolyCommit::<G1Affine>::create(program(), 0).unwrap();
    match idle.fix_vars_and_commit(&lp, &[], &gpu) {
        Either::Done(d) => assert!(d.intermediates.is_empty() && d.commitments.is_empty()),
        Either::Run(_) => panic!("there is nothing to fix"),
    }
}

#[test]
fn witness_poly_batch_and_commit_commits_to_each_witness() {
    let commit = FusedPolyCommit::<G1Affine>::create(program(), 16).unwrap();
    let poly = random_scalars(20);
    let us = random_scalars(3);
    let bases = random_bases(20);
    let (lp, lu, gpu) = (frs(&poly), frs(&us), reprs(&bases));
    let mut job = commit.witness_poly_batch_and_commit(&lp, &lu, &gpu);
    let mut sim = Sim::new();
    let commitments = loop {
        let outs = sim.run(job.session());
        job.resume_with_offsets(words(&outs[0])[0], words(&outs[1]));
        let mut outs = sim.run(job.session());
        if let MsmStage::Counts { .. } = job.stage() {
            job.resume_with_counts(&words(&outs[0]), &words(&outs[1]));
            outs = sim.run(job.session());
        }
        // The witness polynomials are never handed out.
        let commands = job.session().commands();
        assert!(!commands.iter().any(|c| matches!(c, Command::Read { elem: Elem::Scalar, .. })));
        job = match job.finish_round(points(&outs[0])[0]) {
            Either::Done(result) => break result,
            Either::Run(job) => job,
        };
    };
    let expected: Vec<ArkG1> = us.iter().map(|u| msm(&bases, &witness(&poly, *u))).collect();
    assert_eq!(commitments.iter().map(ark_group).collect::<Vec<_>>(), expected);

    // The same as computing the witness polynomials, and committing to them as a batch.
    let kernel = SinglePolyOpsKernel::<Fr>::create(program()).unwrap();
    let outs = Sim::new().run(&kernel.witness_poly_batch(&lp, &lu));
    let rows = kernel.finish_witness(&scalars(&outs[0]), us.len(), poly.len() - 1);
    let slices: Vec<&[Fr]> = rows.iter().map(|r| &r[..]).collect();
    let batch = run_batch(&commit, &slices, &gpu);
    assert_eq!(batch.iter().map(ark_group).collect::<Vec<_>>(), expected);
}

fn run_batch(
    commit: &FusedPolyCommit<G1Affine>,
    polys: &[&[Fr]],
    gpu: &[G1AffineM],
) -> Vec<G1Projective> {
    let mut job = match commit.batch_commit(polys, gpu) {
        Either::Run(job) => job,
        Either::Done(result) => return result,
    };
    let mut sim = Sim::new();
    loop {
        let outs = sim.run(job.session());
        job.resume_with_offsets(words(&outs[0])[0], words(&outs[1]));
        let mut outs = sim.run(job.session());
        if let MsmStage::Counts { .. } = job.stage() {
            job.resume_with_counts(&words(&outs[0]), &words(&outs[1]));
            outs = sim.run(job.session());
        }
        job = match job.finish_round(points(&outs[0])[0]) {
            Either::Done(result) => return result,
            Either::Run(job) => job,
        };
    }
}

#[test]
fn batch_commit_pads_short_polynomials() {
    let commit = FusedPolyCommit::<G1Affine>::create(program(), 16).unwrap();
    let bases = random_bases(24);
    let gpu = reprs(&bases);
    let polys = [random_scalars(24), random_scalars(7), vec![ArkFr::ZERO; 3]];
    let converted: Vec<Vec<Fr>> = polys.iter().map(|p| frs(p)).collect();
    let slices: Vec<&[Fr]> = converted.iter().map(|p| &p[..]).collect();
    let commitments = run_batch(&commit, &slices, &gpu);
    let expected: Vec<ArkG1> = polys.iter().map(|p| msm(&bases, p)).collect();
    assert_eq!(commitments.iter().map(ark_group).collect::<Vec<_>>(), expected);
    match commit.batch_commit(&[], &gpu) {
        Either::Done(d) => assert!(d.is_empty()),
        Either::Run(_) => panic!("there are no polynomials"),
    };
}

#[test]
fn fused_open_commits_and_opens() {
    let commit = FusedPolyCommit::<G1Affine>::create(program(), 16).unwrap();
    for num_challenges in [0usize, 3] {
        let n = 16;
        let poly = random_scalars(n);
        let challenges = random_scalars(num_challenges);
        let bases = random_bases(n);
        let (lp, lc, gpu) = (frs(&poly), frs(&challenges), reprs(&bases));
        let mut job = commit.fused_open(&lp, &lc, &gpu);
        let mut sim = Sim::new();
        let outs = sim.run(job.session());
        let mut combined: Vec<ArkFr> = poly.iter().map(|x| *x * ArkFr::from(2u64)).collect();
        let mut current = poly.clone();
        let mut intermediates = Vec::new();
        for (i, r) in challenges.iter().enumerate() {
            current = fix(&current, *r);
            assert_eq!(ark_frs(&scalars(&outs[i])), current);
            assert_eq!(
                ark_group(&points(&outs[num_challenges])[i]),
                msm(&bases, &current)
            );
            for (j, x) in current.iter().enumerate() {
                combined[j] += *x * ArkFr::from(3 + i as u64);
            }
            intermediates.push(scalars(&outs[i]));
        }
        let us = [ArkFr::from(10u64), ArkFr::from(20u64), ArkFr::from(30u64)];
        let input = Phase3Input {
            lc_coeffs: (0..=num_challenges as u64).map(|i| fr(ArkFr::from(2 + i))).collect(),
            eval_points: frs(&us),
            intermediate_commitments_affine: vec![affine(&bases[0])],
            evaluations: vec![frs(&us)],
        };
        job.resume(&input);
        let outs = sim.run(job.session());
        let witnesses = points(&outs[0]);
        for (i, u) in us.iter().enumerate() {
            assert_eq!(ark_group(&witnesses[i]), msm(&bases, &witness(&combined, *u)));
        }
        let result = FusedOpen::<G1Affine>::finish(intermediates, input, witnesses);
        assert_eq!(result.intermediates.len(), num_challenges);
        assert_eq!(result.witness_commitments.len(), 3);
        assert_eq!(result.intermediate_commitments_affine, vec![affine(&bases[0])]);
        assert_eq!(result.evaluations, vec![frs(&us)]);
    }
}

#[test]
fn fused_open_uploads_the_bases_once() {
    let commit = FusedPolyCommit::<G1Affine>::create(program(), 16).unwrap();
    let (lp, lc, gpu) =
        (frs(&random_scalars(16)), frs(&random_scalars(4)), reprs(&random_bases(16)));
    let mut job = commit.fused_open(&lp, &lc, &gpu);
    let phase2 = job.session().len();
    let input = Phase3Input {
        lc_coeffs: frs(&random_scalars(5)),
        eval_points: Vec::new(),
        intermediate_commitments_affine: Vec::<G1Affine>::new(),
        evaluations: Vec::new(),
    };
    job.resume(&input);
    let uploads = job
        .session()
        .commands()
        .iter()
        .filter(|c| matches!(c, Command::Upload { data: HostData::Bases(_), .. }))
        .count();
    assert_eq!(uploads, 1);
    // Without points there is nothing to read at the end.
    assert!(job.session().commands()[phase2..].iter().all(|c| !matches!(c, Command::Read { .. })));
}

#[test]
fn batch_scalar_mul_gives_the_multiples() {
    let commit = FusedPolyCommit::<G1Affine>::create(program(), 16).unwrap();
    let base = random_bases(1)[0];
    for n in [1usize, 40] {
        let mut ks = random_scalars(n);
        ks[0] = -ArkFr::from(1u64);
        let lk = frs(&ks);
        let session = match commit.batch_scalar_mul(&affine(&base), &lk) {
            Either::Run(s) => s,
            Either::Done(_) => panic!("there are scalars"),
        };
        let outs = Sim::new().run(&session);
        let results = FusedPolyCommit::<G1Affine>::finish_scalar_mul(&points(&outs[0]));
        assert_eq!(results.len(), n);
        for (r, k) in results.iter().zip(&ks) {
            assert_eq!(ark_affine(r), (base * k).into_affine());
        }
    }
    match commit.batch_scalar_mul(&affine(&base), &[]) {
        Either::Done(d) => assert!(d.is_empty()),
        Either::Run(_) => panic!("there are no scalars"),
    };
}

#[test]
fn scalar_mul_tables_hold_multiples() {
    let base = random_bases(1)[0];
    let t = TableShape::new(40);
    assert_eq!((t.window, t.num_windows, t.in_window), (5, 51, 32));
    let table = build_table(&affine(&base), t);
    assert_eq!(table.len(), 51 * 32);
    let two = ArkFr::from(2u64);
    for (outer, inner) in [(0usize, 0usize), (0, 1), (0, 31), (7, 3), (49, 31), (50, 15)] {
        let k = two.pow([5 * outer as u64]) * ArkFr::from(inner as u64);
        assert_eq!(from_repr(&table[outer * 32 + inner]), (base * k).into_affine());
    }
    // The last window has four bits: the rest of its entries is not used.
    for inner in 16..32 {
        assert_eq!(table[50 * 32 + inner], G1AffineM::default());
    }
}

/// Without data there is nothing but the upload that the driver refuses.
#[test]
fn empty_inputs_end_with_the_upload() {
    let uploads_nothing = |commands: &[Command<Fr, ()>]| {
        commands.len() == 1
            && match &commands[0] {
                Command::Upload { slot: 0, data: HostData::Scalars(s) } => s.is_empty(),
                Command::Upload { slot: 0, data: HostData::ScalarVec(s) } => s.is_empty(),
                _ => false,
            }
    };
    let kernel = SinglePolyOpsKernel::<Fr>::create(program()).unwrap();
    let one = fr(ArkFr::from(1u64));
    let empty: [Fr; 0] = [];
    let polys: Vec<&[Fr]> = vec![&empty, &empty];
    let (single, pair) = ([one], [one, one]);
    assert!(uploads_nothing(kernel.scale_poly(&empty, &one).commands()));
    assert!(uploads_nothing(kernel.add_poly(&empty, &empty).commands()));
    assert!(uploads_nothing(kernel.sub_poly(&empty, &empty).commands()));
    assert!(uploads_nothing(kernel.linear_combine(&polys, &pair).commands()));
    let ops = CombinedPolyOps::<Fr>::create(program()).unwrap();
    let job = ops.eval_and_witness_batch(&polys, &single, &pair);
    assert!(uploads_nothing(job.session().commands()));

    let uploads_no_bases = |c: &Command<Fr, G1AffineM>| match c {
        Command::Upload { slot: 0, data: HostData::Bases(b) } => b.is_empty(),
        _ => false,
    };
    let kernel = SingleMultiexpKernel::<G1Affine>::create(program(), &device(2), true).unwrap();
    let job = kernel.multiexp(&[], &[], false).unwrap();
    assert!(job.session().len() == 1 && uploads_no_bases(&job.session().commands()[0]));
    let job = kernel.multiexp_sorted(&[], &[], false).unwrap();
    assert!(job.session().len() == 1 && uploads_no_bases(&job.session().commands()[0]));
    assert!(matches!(kernel.multiexp(&[], &[], true), Err(EcError::Aborted)));

    let commit = FusedPolyCommit::<G1Affine>::create(program(), 16).unwrap();
    let gpu = reprs(&random_bases(2));
    let job = commit.witness_poly_batch_and_commit(&single, &single, &gpu);
    assert!(job.session().len() == 3 && uploads_no_bases(&job.session().commands()[2]));
}
