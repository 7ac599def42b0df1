//! The names of the blobs a container may hold, as strings and as bytes.
use vstd::prelude::*;
use vstd::string::StringSliceAdditionalSpecFns;

verus! {
pub const BLOB_NEURON_POSITIONS: &'static str = "neuron_positions";
pub const BLOB_LAYER_META: &'static str = "layer_meta";
pub const BLOB_WEIGHTS: &'static str = "weights";
pub const BLOB_BIASES: &'static str = "biases";
pub const BLOB_RUNTIME_INPUT: &'static str = "runtime.input";
pub const BLOB_TRAINING_LOG: &'static str = "training.log";
pub const LMLP_CONFIG_BLOB_DATA: &'static str = "lmlp.config";
pub const TOKENIZER_VOCAB_BLOB_DATA: &'static str = "tokenizer.vocab";
pub const TOKENIZER_MERGES_BLOB_DATA: &'static str = "tokenizer.merges";
pub const BLOB_CONV_SPEC: &'static str = "conv.spec";
pub const LMLP_WEIGHTS_BLOB_DATA: &'static str = "lmlp.weights";
pub const TRAIN_CONFIG_BLOB_DATA: &'static str = "train.config";
pub const MODEL_PRECISION_BLOB_DATA: &'static str = "model.precision";
pub const LMLP_GRAPH_BLOB_DATA: &'static str = "lmlp.graph";
pub const LMLP_TENSORS_BLOB_DATA: &'static str = "lmlp.tensors";
pub const GRAPH_OPS_BLOB_DATA: &'static str = "graph.ops";
pub const OPTIMIZER_STATE_BLOB_DATA: &'static str = "optimizer.state";
pub const TENSORS_SNAPSHOT_BLOB_DATA: &'static str = "tensors.snapshot";
pub const MODEL_NAME_BLOB_DATA: &'static str = "model.name";

/// The bytes of "neuron_positions".
pub open spec fn neuron_positions_name() -> Seq<u8> {
    seq![0x6eu8, 0x65, 0x75, 0x72, 0x6f, 0x6e, 0x5f, 0x70, 0x6f, 0x73, 0x69, 0x74, 0x69, 0x6f, 0x6e, 0x73]
}

/// The bytes of "layer_meta".
pub open spec fn layer_meta_name() -> Seq<u8> {
    seq![0x6cu8, 0x61, 0x79, 0x65, 0x72, 0x5f, 0x6d, 0x65, 0x74, 0x61]
}

/// The bytes of "weights".
pub open spec fn weights_name() -> Seq<u8> {
    seq![0x77u8, 0x65, 0x69, 0x67, 0x68, 0x74, 0x73]
}

/// The bytes of "biases".
pub open spec fn biases_name() -> Seq<u8> {
    seq![0x62u8, 0x69, 0x61, 0x73, 0x65, 0x73]
}

/// The bytes of "runtime.input".
pub open spec fn runtime_input_name() -> Seq<u8> {
    seq![0x72u8, 0x75, 0x6e, 0x74, 0x69, 0x6d, 0x65, 0x2e, 0x69, 0x6e, 0x70, 0x75, 0x74]
}

/// The bytes of "training.log".
pub open spec fn training_log_name() -> Seq<u8> {
    seq![0x74u8, 0x72, 0x61, 0x69, 0x6e, 0x69, 0x6e, 0x67, 0x2e, 0x6c, 0x6f, 0x67]
}

/// The bytes of "lmlp.config".
pub open spec fn lmlp_config_name() -> Seq<u8> {
    seq![0x6cu8, 0x6d, 0x6c, 0x70, 0x2e, 0x63, 0x6f, 0x6e, 0x66, 0x69, 0x67]
}

/// The bytes of "tokenizer.vocab".
pub open spec fn tokenizer_vocab_name() -> Seq<u8> {
    seq![0x74u8, 0x6f, 0x6b, 0x65, 0x6e, 0x69, 0x7a, 0x65, 0x72, 0x2e, 0x76, 0x6f, 0x63, 0x61, 0x62]
}

/// The bytes of "tokenizer.merges".
pub open spec fn tokenizer_merges_name() -> Seq<u8> {
    seq![0x74u8, 0x6f, 0x6b, 0x65, 0x6e, 0x69, 0x7a, 0x65, 0x72, 0x2e, 0x6d, 0x65, 0x72, 0x67, 0x65, 0x73]
}

/// The bytes of "conv.spec".
pub open spec fn conv_spec_name() -> Seq<u8> {
    seq![0x63u8, 0x6f, 0x6e, 0x76, 0x2e, 0x73, 0x70, 0x65, 0x63]
}

/// The bytes of "lmlp.weights".
pub open spec fn lmlp_weights_name() -> Seq<u8> {
    seq![0x6cu8, 0x6d, 0x6c, 0x70, 0x2e, 0x77, 0x65, 0x69, 0x67, 0x68, 0x74, 0x73]
}

/// The bytes of "train.config".
pub open spec fn train_config_name() -> Seq<u8> {
    seq![0x74u8, 0x72, 0x61, 0x69, 0x6e, 0x2e, 0x63, 0x6f, 0x6e, 0x66, 0x69, 0x67]
}

/// The bytes of "model.precision".
pub open spec fn model_precision_name() -> Seq<u8> {
    seq![0x6du8, 0x6f, 0x64, 0x65, 0x6c, 0x2e, 0x70, 0x72, 0x65, 0x63, 0x69, 0x73, 0x69, 0x6f, 0x6e]
}

/// The bytes of "lmlp.graph".
pub open spec fn lmlp_graph_name() -> Seq<u8> {
    seq![0x6cu8, 0x6d, 0x6c, 0x70, 0x2e, 0x67, 0x72, 0x61, 0x70, 0x68]
}

/// The bytes of "lmlp.tensors".
pub open spec fn lmlp_tensors_name() -> Seq<u8> {
    seq![0x6cu8, 0x6d, 0x6c, 0x70, 0x2e, 0x74, 0x65, 0x6e, 0x73, 0x6f, 0x72, 0x73]
}

/// The bytes of "graph.ops".
pub open spec fn graph_ops_name() -> Seq<u8> {
    seq![0x67u8, 0x72, 0x61, 0x70, 0x68, 0x2e, 0x6f, 0x70, 0x73]
}

/// The bytes of "optimizer.state".
pub open spec fn optimizer_state_name() -> Seq<u8> {
    seq![0x6fu8, 0x70, 0x74, 0x69, 0x6d, 0x69, 0x7a, 0x65, 0x72, 0x2e, 0x73, 0x74, 0x61, 0x74, 0x65]
}

/// The bytes of "tensors.snapshot".
pub open spec fn tensors_snapshot_name() -> Seq<u8> {
    seq![0x74u8, 0x65, 0x6e, 0x73, 0x6f, 0x72, 0x73, 0x2e, 0x73, 0x6e, 0x61, 0x70, 0x73, 0x68, 0x6f, 0x74]
}

/// The bytes of "model.name".
pub open spec fn model_name_name() -> Seq<u8> {
    seq![0x6du8, 0x6f, 0x64, 0x65, 0x6c, 0x2e, 0x6e, 0x61, 0x6d, 0x65]
}

/// Each name constant spells the bytes given above.
pub proof fn lemma_name_bytes()
    ensures
        BLOB_NEURON_POSITIONS.spec_bytes() == neuron_positions_name(),
        BLOB_LAYER_META.spec_bytes() == layer_meta_name(),
        BLOB_WEIGHTS.spec_bytes() == weights_name(),
        BLOB_BIASES.spec_bytes() == biases_name(),
        BLOB_RUNTIME_INPUT.spec_bytes() == runtime_input_name(),
        BLOB_TRAINING_LOG.spec_bytes() == training_log_name(),
        LMLP_CONFIG_BLOB_DATA.spec_bytes() == lmlp_config_name(),
        TOKENIZER_VOCAB_BLOB_DATA.spec_bytes() == tokenizer_vocab_name(),
        TOKENIZER_MERGES_BLOB_DATA.spec_bytes() == tokenizer_merges_name(),
        BLOB_CONV_SPEC.spec_bytes() == conv_spec_name(),
        LMLP_WEIGHTS_BLOB_DATA.spec_bytes() == lmlp_weights_name(),
        TRAIN_CONFIG_BLOB_DATA.spec_bytes() == train_config_name(),
        MODEL_PRECISION_BLOB_DATA.spec_bytes() == model_precision_name(),
        LMLP_GRAPH_BLOB_DATA.spec_bytes() == lmlp_graph_name(),
        LMLP_TENSORS_BLOB_DATA.spec_bytes() == lmlp_tensors_name(),
        GRAPH_OPS_BLOB_DATA.spec_bytes() == graph_ops_name(),
        OPTIMIZER_STATE_BLOB_DATA.spec_bytes() == optimizer_state_name(),
        TENSORS_SNAPSHOT_BLOB_DATA.spec_bytes() == tensors_snapshot_name(),
        MODEL_NAME_BLOB_DATA.spec_bytes() == model_name_name(),
{
    reveal_strlit("neuron_positions");
    vstd::string::is_ascii_spec_bytes(BLOB_NEURON_POSITIONS);
    assert(BLOB_NEURON_POSITIONS.spec_bytes() =~= neuron_positions_name());
    reveal_strlit("layer_meta");
    vstd::string::is_ascii_spec_bytes(BLOB_LAYER_META);
    assert(BLOB_LAYER_META.spec_bytes() =~= layer_meta_name());
    reveal_strlit("weights");
    vstd::string::is_ascii_spec_bytes(BLOB_WEIGHTS);
    assert(BLOB_WEIGHTS.spec_bytes() =~= weights_name());
    reveal_strlit("biases");
    vstd::string::is_ascii_spec_bytes(BLOB_BIASES);
    assert(BLOB_BIASES.spec_bytes() =~= biases_name());
    reveal_strlit("runtime.input");
    vstd::string::is_ascii_spec_bytes(BLOB_RUNTIME_INPUT);
    assert(BLOB_RUNTIME_INPUT.spec_bytes() =~= runtime_input_name());
    reveal_strlit("training.log");
    vstd::string::is_ascii_spec_bytes(BLOB_TRAINING_LOG);
    assert(BLOB_TRAINING_LOG.spec_bytes() =~= training_log_name());
    reveal_strlit("lmlp.config");
    vstd::string::is_ascii_spec_bytes(LMLP_CONFIG_BLOB_DATA);
    assert(LMLP_CONFIG_BLOB_DATA.spec_bytes() =~= lmlp_config_name());
    reveal_strlit("tokenizer.vocab");
    vstd::string::is_ascii_spec_bytes(TOKENIZER_VOCAB_BLOB_DATA);
    assert(TOKENIZER_VOCAB_BLOB_DATA.spec_bytes() =~= tokenizer_vocab_name());
    reveal_strlit("tokenizer.merges");
    vstd::string::is_ascii_spec_bytes(TOKENIZER_MERGES_BLOB_DATA);
    assert(TOKENIZER_MERGES_BLOB_DATA.spec_bytes() =~= tokenizer_merges_name());
    reveal_strlit("conv.spec");
    vstd::string::is_ascii_spec_bytes(BLOB_CONV_SPEC);
    assert(BLOB_CONV_SPEC.spec_bytes() =~= conv_spec_name());
    reveal_strlit("lmlp.weights");
    vstd::string::is_ascii_spec_bytes(LMLP_WEIGHTS_BLOB_DATA);
    assert(LMLP_WEIGHTS_BLOB_DATA.spec_bytes() =~= lmlp_weights_name());
    reveal_strlit("train.config");
    vstd::string::is_ascii_spec_bytes(TRAIN_CONFIG_BLOB_DATA);
    assert(TRAIN_CONFIG_BLOB_DATA.spec_bytes() =~= train_config_name());
    reveal_strlit("model.precision");
    vstd::string::is_ascii_spec_bytes(MODEL_PRECISION_BLOB_DATA);
    assert(MODEL_PRECISION_BLOB_DATA.spec_bytes() =~= model_precision_name());
    reveal_strlit("lmlp.graph");
    vstd::string::is_ascii_spec_bytes(LMLP_GRAPH_BLOB_DATA);
    assert(LMLP_GRAPH_BLOB_DATA.spec_bytes() =~= lmlp_graph_name());
    reveal_strlit("lmlp.tensors");
    vstd::string::is_ascii_spec_bytes(LMLP_TENSORS_BLOB_DATA);
    assert(LMLP_TENSORS_BLOB_DATA.spec_bytes() =~= lmlp_tensors_name());
    reveal_strlit("graph.ops");
    vstd::string::is_ascii_spec_bytes(GRAPH_OPS_BLOB_DATA);
    assert(GRAPH_OPS_BLOB_DATA.spec_bytes() =~= graph_ops_name());
    reveal_strlit("optimizer.state");
    vstd::string::is_ascii_spec_bytes(OPTIMIZER_STATE_BLOB_DATA);
    assert(OPTIMIZER_STATE_BLOB_DATA.spec_bytes() =~= optimizer_state_name());
    reveal_strlit("tensors.snapshot");
    vstd::string::is_ascii_spec_bytes(TENSORS_SNAPSHOT_BLOB_DATA);
    assert(TENSORS_SNAPSHOT_BLOB_DATA.spec_bytes() =~= tensors_snapshot_name());
    reveal_strlit("model.name");
    vstd::string::is_ascii_spec_bytes(MODEL_NAME_BLOB_DATA);
    assert(MODEL_NAME_BLOB_DATA.spec_bytes() =~= model_name_name());
}

} // verus!
