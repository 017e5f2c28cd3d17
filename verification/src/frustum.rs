//! Camera frustums in the viewer.
use crate::camera::Camera;
use vstd::arithmetic::power2::pow2;
use vstd::prelude::*;

verus! {

/// Orange: 1.0, 0.55, 0.1, 0.95
pub const TRAIN_COLOR: [u32; 4] = [0x3F800000, 0x3F0CCCCD, 0x3DCCCCCD, 0x3F733333];

/// Blue: 0.2, 0.7, 1.0, 0.95
pub const EVAL_COLOR: [u32; 4] = [0x3E4CCCCD, 0x3F333333, 0x3F800000, 0x3F733333];

/// A frustum: the camera and its colour.
#[derive(Clone, Copy, Debug, PartialEq, Eq)]
pub struct FrustumInstance {
    pub camera: Camera,
    pub color: [u32; 4],
}

/// Frustums of one colour.
pub open spec fn colored(cameras: Seq<Camera>, color: [u32; 4]) -> Seq<FrustumInstance> {
    cameras.map_values(|camera: Camera| FrustumInstance { camera, color })
}

/// The frustums to draw.
pub struct CameraFrustumWidget {
    instances: Vec<FrustumInstance>,
}

impl View for CameraFrustumWidget {
    type V = Seq<FrustumInstance>;

    closed spec fn view(&self) -> Seq<FrustumInstance> {
        self.instances@
    }
}

impl CameraFrustumWidget {
    /// Nothing to draw.
    pub fn new() -> (widget: Self)
        ensures
            widget@ == Seq::<FrustumInstance>::empty(),
    {
        CameraFrustumWidget { instances: Vec::new() }
    }

    /// Draws the cameras of a dataset: first those for training, then those
    /// for evaluation.
    pub fn set_dataset(&mut self, train: &Vec<Camera>, eval: &Option<Vec<Camera>>)
        ensures
            final(self)@ == colored(train@, TRAIN_COLOR) + (match eval {
                Some(cameras) => colored(cameras@, EVAL_COLOR),
                None => Seq::empty(),
            }),
            forall|i: int|
                0 <= i < train@.len() ==> (#[trigger] final(self)@[i]).camera == train@[i] && final(self)@[i].color@
                    == seq![0x3F800000u32, 0x3F0CCCCDu32, 0x3DCCCCCDu32, 0x3F733333u32],
            eval.is_none() ==> final(self)@.len() == train@.len(),
            eval.is_some() ==> {
                &&& final(self)@.len() == train@.len() + eval->0@.len()
                &&& forall|i: int|
                    train@.len() <= i < final(self)@.len() ==> (#[trigger] final(self)@[i]).camera == eval->0@[i
                        - train@.len()] && final(self)@[i].color@ == seq![
                        0x3E4CCCCDu32,
                        0x3F333333u32,
                        0x3F800000u32,
                        0x3F733333u32,
                    ]
            },
    {
        self.instances.clear();
        self.push_all(train, TRAIN_COLOR);
        assert(Seq::<FrustumInstance>::empty() + colored(train@, TRAIN_COLOR) =~= colored(train@, TRAIN_COLOR));
        if let Some(cameras) = eval {
            self.push_all(cameras, EVAL_COLOR);
        }
    }

    fn push_all(&mut self, cameras: &Vec<Camera>, color: [u32; 4])
        ensures
            final(self)@ == old(self)@ + colored(cameras@, color),
    {
        let ghost before = self.instances@;
        let n: usize = cameras.len();
        assert(before + colored(cameras@, color).take(0) =~= before);
        for i in 0..n
            invariant
                n == cameras@.len(),
                self.instances@ == before + colored(cameras@, color).take(i as int),
        {
            self.instances.push(FrustumInstance { camera: cameras[i], color });
            assert(self.instances@ =~= before + colored(cameras@, color).take(i + 1));
        }
        assert(colored(cameras@, color).take(n as int) =~= colored(cameras@, color));
    }

    /// Draws nothing any more.
    pub fn clear(&mut self)
        ensures
            final(self)@ == Seq::<FrustumInstance>::empty(),
    {
        self.instances.clear();
    }

    /// The frustums to draw.
    pub fn instances(&self) -> (instances: &Vec<FrustumInstance>)
        ensures
            instances@ == self@,
    {
        &self.instances
    }
}

/// How many frustums the buffer holds at first.
pub const INITIAL_CAPACITY: u64 = 64;

/// Whether `power` is the least power of two that is not below `count`.
pub open spec fn is_next_power_of_two(power: nat, count: nat) -> bool {
    &&& power >= count
    &&& exists|k: nat| power == #[trigger] pow2(k) && (k > 0 ==> pow2((k - 1) as nat) < count)
}

fn next_power_of_two(count: u64) -> (power: u64)
    requires
        count <= 0x8000_0000_0000_0000,
    ensures
        is_next_power_of_two(power as nat, count as nat),
{
    let mut power: u64 = 1;
    let ghost mut k: nat = 0;
    proof {
        vstd::arithmetic::power2::lemma2_to64();
    }
    while power < count
        invariant
            count <= 0x8000_0000_0000_0000,
            power == pow2(k),
            power >= 1,
            k > 0 ==> pow2((k - 1) as nat) < count,
        decreases 2 * count - power,
    {
        proof {
            vstd::arithmetic::power2::lemma_pow2_unfold((k + 1) as nat);
            vstd::arithmetic::power2::lemma_pow2_pos(k);
            k = k + 1;
        }
        power = power * 2;
    }
    power
}

/// The capacity that the buffer must grow to before `count` frustums fit, if
/// it must.
pub fn ensure_capacity(capacity: u64, count: u64) -> (grown: Option<u64>)
    requires
        count <= 0x8000_0000_0000_0000,
    ensures
        grown.is_some() == (count > capacity),
        grown.is_some() ==> grown->0 >= count && grown->0 >= 64,
        grown.is_some() && grown->0 > 64 ==> grown->0 < 2 * count,
        grown.is_some() ==> exists|power: nat| #[trigger]
            is_next_power_of_two(power, count as nat) && grown->0 == vstd::math::max(
                power as int,
                INITIAL_CAPACITY as int,
            ),
{
    if count > capacity {
        let power: u64 = next_power_of_two(count);
        assert(is_next_power_of_two(power as nat, count as nat));
        proof {
            lemma_next_power_is_least(power as nat, count as nat);
        }
        if power > INITIAL_CAPACITY {
            Some(power)
        } else {
            Some(INITIAL_CAPACITY)
        }
    } else {
        None
    }
}

/// The next power of two is less than twice the count, unless that is one or
/// less.
pub proof fn lemma_next_power_is_least(power: nat, count: nat)
    requires
        is_next_power_of_two(power, count),
    ensures
        power >= count,
        power > 1 ==> power < 2 * count,
        exists|k: nat| power == #[trigger] pow2(k),
{
    let k = choose|k: nat| power == #[trigger] pow2(k) && (k > 0 ==> pow2((k - 1) as nat) < count);
    if k > 0 {
        vstd::arithmetic::power2::lemma_pow2_unfold(k);
    } else {
        vstd::arithmetic::power2::lemma2_to64();
    }
}

/// Every camera gets a frustum of the colour, in the same order.
pub proof fn lemma_every_camera_is_drawn(cameras: Seq<Camera>, color: [u32; 4], i: int)
    requires
        0 <= i < cameras.len(),
    ensures
        colored(cameras, color).len() == cameras.len(),
        colored(cameras, color)[i].camera == cameras[i],
        colored(cameras, color)[i].color == color,
{
}

} // verus!
