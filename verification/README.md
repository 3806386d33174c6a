# mlx_lm

The verified core of a local runner for Qwen3 language models, and the program
parts around it that talk to MLX and to the file system.

`src/` is the library. Everything in it is verified with Verus.

| module | holds |
| --- | --- |
| `cache` | the key/value cache of a layer, which grows in blocks |
| `prompt_cache` | reuse of caches between prompts |
| `plan` | device programs, and the expressions that their results stand for |
| `models::qwen3` | the layers of a model, and the program of a forward pass |
| `models::pass` | the shapes of a forward pass, and what it does to the caches |
| `models::rope` | rope scaling, and the programs of the rope and of YaRN frequencies |
| `sample` | the program that chooses a token from logits |
| `generate` | reading a prompt in chunks, and decoding one step ahead |
| `weights` | matching of parameters with the tensors of a checkpoint |
| `tokenizer` | tokenizer classes, and the form that Llama definitions are put into |
| `config`, `error`, `single`, `text` | configuration, errors, numbers by bit pattern, messages |

The device is not part of the library. A cache or a generation asks for what it
needs done, and is told when it is done; a forward pass, a rope and a choice of
tokens are laid down as a list of device operations before any of them runs.

`app/` performs these operations with MLX, computes the few numbers that need
floating point, and reads checkpoints. `tests/` runs the library on a simulated
device.
