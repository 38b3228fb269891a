# ec_gpu_gen

Multiexponentiation and polynomial operations for KZG style commitments over BN254 on a GPU.

The kernels run on the device. The library (`src/`) is what happens around them on the host, and it
is verified with Verus: field and group elements, the split of the work into windows, buckets and
chunks, the buffers and their lengths, the launches and their arguments, and what is made of the
data that comes back. A plan is a `session::Session`, a list of device commands; operations whose
next step depends on what the device reports are state machines that extend their session.

| Module | Contents |
|---|---|
| `arith`, `limbs` | integers, bytes and words |
| `field`, `group`, `curve` | BN254, on top of `ark_bn254` |
| `session`, `kernel_names` | device commands |
| `opencl`, `program`, `error` | devices, programs, kernels, transfers |
| `multiexp`, `booth`, `memory`, `dispatch` | parameters and tables of multiexponentiations |
| `single_multiexp`, `sorted_msm`, `sorted_multiexp`, `sorted_sum`, `multiexp_kernel` | multiexponentiations |
| `poly_ops`, `reference`, `combined_ops`, `witness` | polynomial operations |
| `gpu_buffer` | the cache of uploaded polynomials |
| `fused_msm`, `fused_commit`, `witness_commit`, `batch_commit`, `fused_open`, `scalar_mul` | commitments |
| `field_device`, `commit_laws`, `open_laws` | what sessions compute on a device whose kernels do what they are for |

What is taken from `ark_bn254`, `ark_ec` and `ark_ff` without proof is stated at the functions
marked `#[verifier::external_body]` in `field` and `curve`.

`app/` runs sessions with `opencl3`. `tests/` runs them on a device that is simulated on the host.
